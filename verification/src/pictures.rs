//! Every picture a list wants, in one file, already the size it is drawn at.
//!
//! A row keeps a square at its front and most rows have something to put in
//! it: an application's icon, a photograph's thumbnail. Decoding each of them
//! every time a list opens was the slowest part of opening a panel, and none
//! of the work was new. So they are decoded once, into one file, at the size
//! a row draws them, and an opening reads that file once and hands out
//! slices of it.
//!
//! What a picture is called here is the file it was made from and the side it
//! was made at: a size nobody has asked for yet is simply a picture that is
//! not in the store.
//!
//! The store is the magic line, how many pictures there are, then for each
//! its name, its width, height and stride, where its pixels start after the
//! list and how many bytes they are, and then every picture's pixels, one
//! after another. Every number is four bytes, least significant first. A
//! store that is cut short, points past its own end, or holds a picture
//! whose rows do not fit its own pixels is no store at all.
//!
//! Finding the store, reading it, holding it between openings and starting
//! the maker are the program's around this; what the store says, and which
//! pictures are still to be made, are here.

use vstd::prelude::*;
use vstd::utf8::{decode_utf8, encode_utf8, valid_utf8};

use crate::decimal::{digits, parse_u32};
use crate::text;

verus! {

/// How many points a side of a picture is.
#[derive(Debug, Clone, Copy, PartialEq, Eq, PartialOrd, Ord, Structural)]
pub struct Side(pub u32);

/// What a picture is called: the side it was made at and the file it was
/// made from, a space between them.
pub open spec fn keyed_of(of: Seq<char>, side: Side) -> Seq<char> {
    digits(side.0 as nat) + seq![' '] + of
}

/// What a picture made from `of` at `side` is called.
pub fn keyed(of: &str, side: Side) -> (r: String)
    ensures
        r@ == keyed_of(of@, side),
{
    let mut v = crate::decimal::written(side.0 as u64);
    v.push(' ');
    text::extend(&mut v, &text::letters(of));
    text::text(&v)
}

/// The file a picture's name says it was made from and the side it was
/// made at, when the name says both: the name up to its first space is the
/// side, and the rest is the file.
pub open spec fn unkeyed_of(key: Seq<char>) -> Option<(Seq<char>, Side)> {
    if key.contains(' ') {
        let i = text::first_of(key, ' ');
        match parse_u32(key.take(i)) {
            Some(side) => Some((key.skip(i + 1), Side(side))),
            None => None,
        }
    } else {
        None
    }
}

/// The file a picture's name says it was made from and the side it was
/// made at.
pub fn unkeyed(key: &str) -> (r: Option<(String, Side)>)
    ensures
        match r {
            Some(found) => unkeyed_of(key@) == Some((found.0@, found.1)),
            None => unkeyed_of(key@) is None,
        },
{
    let k = text::letters(key);
    let i = match text::find_first(&k, ' ') {
        Some(i) => i,
        None => return None,
    };
    assert(k@.subrange(0, i as int) =~= k@.take(i as int));
    assert(k@.subrange(i + 1, k@.len() as int) =~= k@.skip(i + 1));
    let side = text::slice(&k, 0, i);
    match crate::decimal::parsed_u32(&side) {
        Some(side) => Some((text::text(&text::slice(&k, i + 1, k.len())), Side(side))),
        None => None,
    }
}

/// A picture's name is read back as the file and the side it was made
/// from, whatever the file's name holds, spaces too.
pub proof fn lemma_a_key_is_read_back(of: Seq<char>, side: Side)
    ensures
        unkeyed_of(keyed_of(of, side)) == Some((of, side)),
{
    let d = digits(side.0 as nat);
    let k = keyed_of(of, side);
    crate::decimal::lemma_digits(side.0 as nat);
    crate::decimal::lemma_parse_u64_digits(side.0 as u64);
    assert(k[d.len() as int] == ' ');
    assert(text::is_first(k, ' ', d.len() as int)) by {
        assert forall|j: int| 0 <= j < d.len() implies k[j] != ' ' by {
            assert(crate::decimal::is_digit(d[j]));
        }
    }
    assert(k.contains(' '));
    text::lemma_first_unique(k, ' ', d.len() as int);
    assert(k.take(d.len() as int) =~= d);
    assert(k.skip(d.len() as int + 1) =~= of);
}

/// A picture's name names exactly one file and one side: two names are one
/// only when they were made from the same file at the same side.
pub proof fn lemma_a_key_names_one_file_and_side(a: Seq<char>, s: Side, b: Seq<char>, t: Side)
    ensures
        keyed_of(a, s) == keyed_of(b, t) <==> (a == b && s == t),
{
    lemma_a_key_is_read_back(a, s);
    lemma_a_key_is_read_back(b, t);
}

/// The side a row draws its picture at.
pub fn a_row() -> (r: Side)
    ensures
        r == Side(crate::strip::PICTURE as u32),
{
    Side(crate::strip::PICTURE as u32)
}

/// What the maker is told the side is with.
pub const SIDE: &'static str = "--side";

/// The first line of a store, which says what it is: `panel-pictures 2`.
pub const MAGIC: [u8; 17] = [
    0x70,
    0x61,
    0x6e,
    0x65,
    0x6c,
    0x2d,
    0x70,
    0x69,
    0x63,
    0x74,
    0x75,
    0x72,
    0x65,
    0x73,
    0x20,
    0x32,
    0x0a,
];

/// A picture made: the file it was made from, how big it is, how many bytes
/// each of its rows takes, and its pixels.
#[derive(Debug, Clone, PartialEq, Eq)]
pub struct Picture {
    pub of: String,
    pub width: u32,
    pub height: u32,
    pub stride: u32,
    pub pixels: Vec<u8>,
}

/// Where a picture's pixels are in the store, and how big it is.
#[derive(Debug, Clone, Copy, PartialEq, Eq, Structural)]
pub struct Where {
    pub width: u32,
    pub height: u32,
    pub stride: u32,
    pub at: u64,
    pub long: u64,
}

/// Where a picture's pixels end in the store, held at the most a `u64`
/// holds.
pub open spec fn end_of(w: Where) -> int {
    if w.at + w.long > u64::MAX {
        u64::MAX as int
    } else {
        w.at + w.long
    }
}

impl Where {
    /// A picture's pixels in the store `bytes`, when they are inside it.
    pub fn in_store<'a>(&self, bytes: &'a [u8]) -> (r: Option<&'a [u8]>)
        ensures
            match r {
                Some(s) => end_of(*self) <= bytes@.len() && s@ == bytes@.subrange(
                    self.at as int,
                    end_of(*self),
                ),
                None => end_of(*self) > bytes@.len(),
            },
    {
        let end: u64 = if self.at > u64::MAX - self.long {
            u64::MAX
        } else {
            self.at + self.long
        };
        if end > bytes.len() as u64 {
            return None;
        }
        Some(vstd::slice::slice_subrange(bytes, self.at as usize, end as usize))
    }
}

/// The number four bytes say, least significant first.
pub open spec fn le_value(b: Seq<u8>) -> int {
    b[0] + 256 * b[1] + 65536 * b[2] + 16777216 * b[3]
}

/// The four bytes a number is written as, least significant first.
#[verifier::opaque]
pub open spec fn le(n: u32) -> Seq<u8> {
    seq![
        (n % 256) as u8,
        ((n / 256) % 256) as u8,
        ((n / 65536) % 256) as u8,
        ((n / 16777216) % 256) as u8,
    ]
}

/// A number written as four bytes reads back as itself.
pub proof fn lemma_le(n: u32)
    ensures
        le(n).len() == 4,
        le_value(le(n)) == n,
{
    reveal(le);
    let b = le(n);
    assert(le_value(b) == n) by (nonlinear_arith)
        requires
            b[0] == n % 256,
            b[1] == (n / 256) % 256,
            b[2] == (n / 65536) % 256,
            b[3] == (n / 16777216) % 256,
            n <= 0xffff_ffff,
    ;
}

/// The four bytes a number is written as.
fn le_bytes(n: u32) -> (r: Vec<u8>)
    ensures
        r@ == le(n),
{
    let mut r: Vec<u8> = Vec::new();
    r.push((n % 256) as u8);
    r.push(((n / 256) % 256) as u8);
    r.push(((n / 65536) % 256) as u8);
    r.push(((n / 16777216) % 256) as u8);
    proof {
        reveal(le);
    }
    assert(r@ =~= le(n));
    r
}

/// The number at `p` of `bytes`, when four bytes are there.
pub open spec fn number_at(bytes: Seq<u8>, p: int) -> Option<u32> {
    if 0 <= p && p + 4 <= bytes.len() {
        Some(le_value(bytes.subrange(p, p + 4)) as u32)
    } else {
        None
    }
}

/// The number at `at` of `bytes`.
fn number(bytes: &[u8], at: usize) -> (r: Option<u32>)
    ensures
        r == number_at(bytes@, at as int),
{
    if at > bytes.len() || bytes.len() - at < 4 {
        return None;
    }
    let b0 = bytes[at] as u32;
    let b1 = bytes[at + 1] as u32;
    let b2 = bytes[at + 2] as u32;
    let b3 = bytes[at + 3] as u32;
    assert(b0 + 256 * b1 + 65536 * b2 + 16777216 * b3 <= 0xffff_ffff) by (nonlinear_arith)
        requires
            b0 <= 255,
            b1 <= 255,
            b2 <= 255,
            b3 <= 255,
    ;
    let v = b0 + 256 * b1 + 65536 * b2 + 16777216 * b3;
    assert(bytes@.subrange(at as int, at + 4)[0] == b0);
    assert(bytes@.subrange(at as int, at + 4)[1] == b1);
    assert(bytes@.subrange(at as int, at + 4)[2] == b2);
    assert(bytes@.subrange(at as int, at + 4)[3] == b3);
    Some(v)
}

/// The characters some bytes are, when they are UTF-8.
///
/// Trusted: `String::from_utf8`, which std documents as giving the string
/// back when the bytes are UTF-8 and an error otherwise; the contract says
/// that over vstd's own model of UTF-8.
#[verifier::external_body]
fn utf8(bytes: &[u8]) -> (r: Option<String>)
    ensures
        match r {
            Some(s) => valid_utf8(bytes@) && s@ == decode_utf8(bytes@),
            None => !valid_utf8(bytes@),
        },
{
    String::from_utf8(bytes.to_vec()).ok()
}

/// A number held inside what a `u32` holds.
pub open spec fn fit32(n: int) -> u32 {
    if n > u32::MAX {
        u32::MAX
    } else if n < 0 {
        0
    } else {
        n as u32
    }
}

/// Every picture's pixels, one after another.
pub open spec fn body_of(ps: Seq<Picture>) -> Seq<u8>
    decreases ps.len(),
{
    if ps.len() == 0 {
        Seq::empty()
    } else {
        body_of(ps.drop_last()) + ps.last().pixels@
    }
}

/// What the list says of a picture whose pixels start `at` bytes after it.
pub open spec fn entry_of(p: Picture, at: u32) -> Seq<u8> {
    le(fit32(encode_utf8(p.of@).len() as int)) + encode_utf8(p.of@) + le(p.width) + le(p.height)
        + le(p.stride) + le(at) + le(fit32(p.pixels@.len() as int))
}

/// What the list says of every picture.
pub open spec fn heads_of(ps: Seq<Picture>) -> Seq<u8>
    decreases ps.len(),
{
    if ps.len() == 0 {
        Seq::empty()
    } else {
        heads_of(ps.drop_last()) + entry_of(ps.last(), fit32(body_of(ps.drop_last()).len() as int))
    }
}

/// A store holding `ps`.
pub open spec fn written_of(ps: Seq<Picture>) -> Seq<u8> {
    MAGIC@ + le(fit32(ps.len() as int)) + heads_of(ps) + body_of(ps)
}

/// Appends `src` to `dst`.
fn append(dst: &mut Vec<u8>, src: &[u8])
    ensures
        final(dst)@ == old(dst)@ + src@,
{
    let ghost was = dst@;
    let mut i: usize = 0;
    while i < src.len()
        invariant
            i <= src@.len(),
            dst@ == was + src@.take(i as int),
        decreases src.len() - i,
    {
        dst.push(src[i]);
        i += 1;
        assert(src@.take(i as int) =~= src@.take(i - 1).push(src@[i - 1]));
    }
    assert(src@.take(i as int) =~= src@);
}

/// A length held inside what a `u32` holds.
fn fitted(n: usize) -> (r: u32)
    ensures
        r == fit32(n as int),
{
    if n > u32::MAX as usize {
        u32::MAX
    } else {
        n as u32
    }
}

/// A store holding `pictures`.
pub fn written(pictures: &[Picture]) -> (r: Vec<u8>)
    ensures
        r@ == written_of(pictures@),
{
    let mut head: Vec<u8> = Vec::new();
    let mut body: Vec<u8> = Vec::new();
    append(&mut head, &MAGIC);
    append(&mut head, le_bytes(fitted(pictures.len())).as_slice());
    let ghost start = head@;
    let mut i: usize = 0;
    while i < pictures.len()
        invariant
            i <= pictures@.len(),
            start == MAGIC@ + le(fit32(pictures@.len() as int)),
            head@ == start + heads_of(pictures@.take(i as int)),
            body@ == body_of(pictures@.take(i as int)),
        decreases pictures.len() - i,
    {
        let picture = &pictures[i];
        let name = picture.of.as_str().as_bytes();
        let ghost before = head@;
        append(&mut head, le_bytes(fitted(name.len())).as_slice());
        append(&mut head, name);
        append(&mut head, le_bytes(picture.width).as_slice());
        append(&mut head, le_bytes(picture.height).as_slice());
        append(&mut head, le_bytes(picture.stride).as_slice());
        append(&mut head, le_bytes(fitted(body.len())).as_slice());
        append(&mut head, le_bytes(fitted(picture.pixels.len())).as_slice());
        assert(head@ =~= before + entry_of(*picture, fit32(body@.len() as int)));
        append(&mut body, picture.pixels.as_slice());
        assert(pictures@.take(i + 1).drop_last() =~= pictures@.take(i as int));
        assert(pictures@.take(i + 1).last() == *picture);
        i += 1;
    }
    assert(pictures@.take(i as int) =~= pictures@);
    append(&mut head, body.as_slice());
    head
}

/// What the list says of one picture, as it is read: its name's bytes, its
/// size, where its pixels start after the list and how many there are.
pub struct Entry {
    pub name: Seq<u8>,
    pub wide: u32,
    pub tall: u32,
    pub stride: u32,
    pub at: u32,
    pub long: u32,
}

/// What the list says of the picture at `p`, and where the next begins.
pub open spec fn entry_at(bytes: Seq<u8>, p: int) -> Option<(Entry, int)> {
    match number_at(bytes, p) {
        None => None,
        Some(n) => {
            let q = p + 4 + n;
            if q > bytes.len() {
                None
            } else {
                match (
                    number_at(bytes, q),
                    number_at(bytes, q + 4),
                    number_at(bytes, q + 8),
                    number_at(bytes, q + 12),
                    number_at(bytes, q + 16),
                ) {
                    (Some(wide), Some(tall), Some(stride), Some(at), Some(long)) => Some(
                        (
                            Entry {
                                name: bytes.subrange(p + 4, q),
                                wide,
                                tall,
                                stride,
                                at,
                                long,
                            },
                            q + 20,
                        ),
                    ),
                    _ => None,
                }
            }
        },
    }
}

/// What the list says of `count` pictures from `p`, and where it ends.
pub open spec fn entries_from(bytes: Seq<u8>, p: int, count: nat) -> Option<(Seq<Entry>, int)>
    decreases count,
{
    if count == 0 {
        Some((Seq::empty(), p))
    } else {
        match entry_at(bytes, p) {
            None => None,
            Some((e, q)) => match entries_from(bytes, q, (count - 1) as nat) {
                None => None,
                Some((es, r)) => Some((seq![e] + es, r)),
            },
        }
    }
}

/// Where a picture `wide` by `tall`, `stride` bytes a row, whose `long`
/// bytes of pixels start `at` bytes after a list ending at `began`, stands
/// in a store of `stored` bytes: refused when its pixels run past the store,
/// are nothing, or are too few for its own rows.
pub open spec fn placed(
    wide: u32,
    tall: u32,
    stride: u32,
    at: u32,
    long: u32,
    began: int,
    stored: int,
) -> Option<Where> {
    let start = began + at;
    let end = start + long;
    let rows = stride * (if tall == 0 {
        0
    } else {
        tall - 1
    });
    let whole = rows + wide * 4;
    if start > u64::MAX || end > u64::MAX || end > stored || long == 0 || whole > long {
        None
    } else {
        Some(Where { width: wide, height: tall, stride, at: start as u64, long: long as u64 })
    }
}

/// Where a picture the list says this of stands.
pub open spec fn stands(e: Entry, began: int, stored: int) -> Option<Where> {
    placed(e.wide, e.tall, e.stride, e.at, e.long, began, stored)
}

/// Where a picture stands in a store.
fn placed_in(
    wide: u32,
    tall: u32,
    stride: u32,
    at: u32,
    long: u32,
    began: usize,
    stored: usize,
) -> (r: Option<Where>)
    ensures
        r == placed(wide, tall, stride, at, long, began as int, stored as int),
{
    let began = began as u64;
    if began > u64::MAX - at as u64 {
        return None;
    }
    let start = began + at as u64;
    if start > u64::MAX - long as u64 {
        return None;
    }
    let end = start + long as u64;
    if end > stored as u64 || long == 0 {
        return None;
    }
    let up: u64 = if tall == 0 {
        0
    } else {
        (tall - 1) as u64
    };
    assert((stride as int) * (up as int) <= 0xffff_ffff * 0xffff_ffff) by (nonlinear_arith)
        requires
            stride <= 0xffff_ffff,
            up <= 0xffff_ffff,
    ;
    let rows = stride as u64 * up;
    let last = wide as u64 * 4;
    if rows > u64::MAX - last {
        return None;
    }
    let whole = rows + last;
    if whole > long as u64 {
        return None;
    }
    Some(Where { width: wide, height: tall, stride, at: start, long: long as u64 })
}

/// The pictures the list says, by name, a later name standing over an
/// earlier: nothing at all when one of them is refused or not named in
/// UTF-8.
pub open spec fn indexed(es: Seq<Entry>, began: int, stored: int) -> Option<Map<Seq<char>, Where>>
    decreases es.len(),
{
    if es.len() == 0 {
        Some(Map::empty())
    } else {
        match indexed(es.drop_last(), began, stored) {
            None => None,
            Some(m) => if !valid_utf8(es.last().name) {
                None
            } else {
                match stands(es.last(), began, stored) {
                    None => None,
                    Some(w) => Some(m.insert(decode_utf8(es.last().name), w)),
                }
            },
        }
    }
}

/// What a store says: every picture in it, by name, or nothing when it is
/// not a store, is cut short, or says something it cannot hold.
pub open spec fn read_of(bytes: Seq<u8>) -> Option<Map<Seq<char>, Where>> {
    if bytes.len() < 17 || bytes.take(17) != MAGIC@ {
        None
    } else {
        match number_at(bytes, 17) {
            None => None,
            Some(count) => match entries_from(bytes, 21, count as nat) {
                None => None,
                Some((es, r)) => indexed(es, r, bytes.len() as int),
            },
        }
    }
}

/// The pictures a run of named places says, by name, a later name standing
/// over an earlier.
pub open spec fn as_map(s: Seq<(String, Where)>) -> Map<Seq<char>, Where>
    decreases s.len(),
{
    if s.len() == 0 {
        Map::empty()
    } else {
        as_map(s.drop_last()).insert(s.last().0@, s.last().1)
    }
}

/// Whether each name is in a run of named places once.
pub open spec fn names_once(s: Seq<(String, Where)>) -> bool {
    forall|a: int, b: int|
        0 <= a < s.len() && 0 <= b < s.len() && #[trigger] s[a].0@ == #[trigger] s[b].0@ ==> a == b
}

/// A name that is in a run once is found there.
proof fn lemma_as_map_get(s: Seq<(String, Where)>, i: int)
    requires
        names_once(s),
        0 <= i < s.len(),
    ensures
        as_map(s).contains_key(s[i].0@),
        as_map(s)[s[i].0@] == s[i].1,
    decreases s.len(),
{
    if i < s.len() - 1 {
        let d = s.drop_last();
        assert(names_once(d)) by {
            assert forall|a: int, b: int|
                0 <= a < d.len() && 0 <= b < d.len() && #[trigger] d[a].0@ == #[trigger] d[b].0@ implies a
                == b by {
                assert(s[a].0@ == s[b].0@);
            }
        }
        assert(d[i] == s[i]);
        lemma_as_map_get(d, i);
        assert(s.last().0@ != s[i].0@) by {
            if s.last().0@ == s[i].0@ {
                assert(s[s.len() - 1].0@ == s[i].0@);
            }
        }
    }
}

/// A name that is not in a run is not found there.
proof fn lemma_as_map_absent(s: Seq<(String, Where)>, n: Seq<char>)
    requires
        forall|i: int| 0 <= i < s.len() ==> #[trigger] s[i].0@ != n,
    ensures
        !as_map(s).contains_key(n),
    decreases s.len(),
{
    if s.len() > 0 {
        let d = s.drop_last();
        assert forall|i: int| 0 <= i < d.len() implies #[trigger] d[i].0@ != n by {
            assert(d[i] == s[i]);
        }
        lemma_as_map_absent(d, n);
        assert(s[s.len() - 1].0@ != n);
    }
}

/// Putting a place in for a name already in a run, where it was, is the
/// name standing for the new place.
proof fn lemma_as_map_update(s: Seq<(String, Where)>, i: int, e: (String, Where))
    requires
        names_once(s),
        0 <= i < s.len(),
        s[i].0@ == e.0@,
    ensures
        as_map(s.update(i, e)) == as_map(s).insert(e.0@, e.1),
    decreases s.len(),
{
    let u = s.update(i, e);
    if i == s.len() - 1 {
        assert(u.drop_last() =~= s.drop_last());
        assert(as_map(u) =~= as_map(s).insert(e.0@, e.1));
    } else {
        let d = s.drop_last();
        assert(names_once(d)) by {
            assert forall|a: int, b: int|
                0 <= a < d.len() && 0 <= b < d.len() && #[trigger] d[a].0@ == #[trigger] d[b].0@ implies a
                == b by {
                assert(s[a].0@ == s[b].0@);
            }
        }
        assert(u.drop_last() =~= d.update(i, e));
        lemma_as_map_update(d, i, e);
        assert(s.last().0@ != e.0@) by {
            if s.last().0@ == e.0@ {
                assert(s[s.len() - 1].0@ == s[i].0@);
            }
        }
        assert(u.last() == s.last());
        assert(as_map(u) =~= as_map(s).insert(e.0@, e.1));
    }
}

/// The pictures in a store, by name.
pub struct Index {
    entries: Vec<(String, Where)>,
}

impl View for Index {
    type V = Map<Seq<char>, Where>;

    closed spec fn view(&self) -> Map<Seq<char>, Where> {
        as_map(self.entries@)
    }
}

impl Index {
    /// Each picture is in the index once.
    #[verifier::type_invariant]
    spec fn once(self) -> bool {
        names_once(self.entries@)
    }

    /// An index with nothing in it.
    pub fn new() -> (r: Index)
        ensures
            r@ == Map::<Seq<char>, Where>::empty(),
    {
        let r = Index { entries: Vec::new() };
        assert(r@ =~= Map::<Seq<char>, Where>::empty());
        r
    }

    /// How many pictures the index holds.
    pub fn len(&self) -> (r: usize)
        ensures
            r as nat == self@.dom().len(),
    {
        proof {
            use_type_invariant(self);
            lemma_as_map_len(self.entries@);
        }
        self.entries.len()
    }

    /// Whether the index holds nothing.
    pub fn is_empty(&self) -> (r: bool)
        ensures
            r == (self@.dom().len() == 0),
    {
        self.len() == 0
    }

    /// Where the picture called `name` is, if the index holds it.
    pub fn get(&self, name: &str) -> (r: Option<&Where>)
        ensures
            match r {
                Some(w) => self@.contains_key(name@) && self@[name@] == *w,
                None => !self@.contains_key(name@),
            },
    {
        proof {
            use_type_invariant(self);
        }
        match self.place_of(name) {
            Some(i) => {
                proof {
                    lemma_as_map_get(self.entries@, i as int);
                }
                Some(&self.entries[i].1)
            },
            None => {
                proof {
                    lemma_as_map_absent(self.entries@, name@);
                }
                None
            },
        }
    }

    /// Whether the index holds the picture called `name`.
    pub fn contains_key(&self, name: &str) -> (r: bool)
        ensures
            r == self@.contains_key(name@),
    {
        self.get(name).is_some()
    }

    /// Where in the run the picture called `name` is.
    fn place_of(&self, name: &str) -> (r: Option<usize>)
        ensures
            match r {
                Some(i) => i < self.entries@.len() && self.entries@[i as int].0@ == name@,
                None => forall|i: int|
                    0 <= i < self.entries@.len() ==> #[trigger] self.entries@[i].0@ != name@,
            },
    {
        let wanted = text::letters(name);
        let mut i: usize = 0;
        while i < self.entries.len()
            invariant
                i <= self.entries@.len(),
                wanted@ == name@,
                forall|j: int| 0 <= j < i ==> #[trigger] self.entries@[j].0@ != name@,
            decreases self.entries.len() - i,
        {
            if text::same(&text::letters(self.entries[i].0.as_str()), &wanted) {
                return Some(i);
            }
            i += 1;
        }
        None
    }

    /// Puts the picture called `name` in the index, where `w` says, over
    /// any picture of that name already in it.
    pub fn insert(&mut self, name: String, w: Where)
        ensures
            final(self)@ == old(self)@.insert(name@, w),
    {
        proof {
            use_type_invariant(&*self);
        }
        let found = self.place_of(name.as_str());
        let mut entries: Vec<(String, Where)> = Vec::new();
        std::mem::swap(&mut entries, &mut self.entries);
        match found {
            Some(i) => {
                let ghost was = entries@;
                proof {
                    lemma_as_map_update(was, i as int, (name, w));
                    assert(names_once(was.update(i as int, (name, w)))) by {
                        assert forall|a: int, b: int|
                            0 <= a < was.len() && 0 <= b < was.len() && #[trigger] was.update(
                                i as int,
                                (name, w),
                            )[a].0@ == #[trigger] was.update(i as int, (name, w))[b].0@ implies a
                            == b by {
                            assert(was[a].0@ == was.update(i as int, (name, w))[a].0@);
                            assert(was[b].0@ == was.update(i as int, (name, w))[b].0@);
                        }
                    }
                }
                entries.set(i, (name, w));
            },
            None => {
                let ghost was = entries@;
                proof {
                    assert(names_once(was.push((name, w)))) by {
                        assert forall|a: int, b: int|
                            0 <= a < was.len() + 1 && 0 <= b < was.len() + 1 && #[trigger] was.push(
                                (name, w),
                            )[a].0@ == #[trigger] was.push((name, w))[b].0@ implies a == b by {
                            if a < was.len() && b < was.len() {
                                assert(was[a].0@ == was[b].0@);
                            } else if a < was.len() {
                                assert(was[a].0@ != name@);
                            } else if b < was.len() {
                                assert(was[b].0@ != name@);
                            }
                        }
                    }
                    assert(was.push((name, w)).drop_last() =~= was);
                }
                entries.push((name, w));
            },
        }
        self.entries = entries;
    }
}

/// A run in which each name is once holds as many pictures as places.
proof fn lemma_as_map_len(s: Seq<(String, Where)>)
    requires
        names_once(s),
    ensures
        as_map(s).dom().len() == s.len(),
        as_map(s).dom().finite(),
    decreases s.len(),
{
    if s.len() > 0 {
        let d = s.drop_last();
        assert(names_once(d)) by {
            assert forall|a: int, b: int|
                0 <= a < d.len() && 0 <= b < d.len() && #[trigger] d[a].0@ == #[trigger] d[b].0@ implies a
                == b by {
                assert(s[a].0@ == s[b].0@);
            }
        }
        lemma_as_map_len(d);
        assert forall|i: int| 0 <= i < d.len() implies #[trigger] d[i].0@ != s.last().0@ by {
            assert(s[i].0@ != s[s.len() - 1].0@);
        }
        lemma_as_map_absent(d, s.last().0@);
    }
}

/// When the pictures a list says are indexed, each of them is named in
/// UTF-8 and stands in the store.
proof fn lemma_indexed_each(es: Seq<Entry>, began: int, stored: int)
    requires
        indexed(es, began, stored) is Some,
    ensures
        forall|k: int|
            0 <= k < es.len() ==> valid_utf8(#[trigger] es[k].name) && stands(
                es[k],
                began,
                stored,
            ) is Some,
    decreases es.len(),
{
    if es.len() > 0 {
        lemma_indexed_each(es.drop_last(), began, stored);
        assert forall|k: int| 0 <= k < es.len() implies valid_utf8(#[trigger] es[k].name) && stands(
            es[k],
            began,
            stored,
        ) is Some by {
            if k < es.len() - 1 {
                assert(es.drop_last()[k] == es[k]);
            }
        }
    }
}

/// Whether a picture read from the list is what the list says of it.
pub open spec fn read_as(f: (String, u32, u32, u32, u32, u32), e: Entry) -> bool {
    &&& valid_utf8(e.name)
    &&& f.0@ == decode_utf8(e.name)
    &&& f.1 == e.wide
    &&& f.2 == e.tall
    &&& f.3 == e.stride
    &&& f.4 == e.at
    &&& f.5 == e.long
}

/// What a store says: every picture in it, by name, or nothing when it is
/// not a store, is cut short, or says something it cannot hold.
pub fn read(bytes: &[u8]) -> (r: Option<Index>)
    ensures
        match r {
            Some(index) => read_of(bytes@) == Some(index@),
            None => read_of(bytes@) is None,
        },
{
    if bytes.len() < 17 {
        return None;
    }
    let mut m: usize = 0;
    while m < 17
        invariant
            m <= 17,
            bytes@.len() >= 17,
            forall|j: int| 0 <= j < m ==> bytes@[j] == MAGIC@[j],
        decreases 17 - m,
    {
        if bytes[m] != MAGIC[m] {
            assert(bytes@.take(17)[m as int] != MAGIC@[m as int]);
            return None;
        }
        m += 1;
    }
    assert(bytes@.take(17) =~= MAGIC@);
    let count = match number(bytes, 17) {
        Some(count) => count,
        None => return None,
    };
    let mut p: usize = 21;
    let mut found: Vec<(String, u32, u32, u32, u32, u32)> = Vec::new();
    let ghost mut pre: Seq<Entry> = Seq::empty();
    let mut i: u32 = 0;
    while i < count
        invariant
            i <= count,
            read_of(bytes@) == match entries_from(bytes@, 21, count as nat) {
                None => None,
                Some((es, r)) => indexed(es, r, bytes@.len() as int),
            },
            found@.len() == pre.len(),
            forall|k: int| 0 <= k < found@.len() ==> read_as(#[trigger] found@[k], pre[k]),
            entries_from(bytes@, 21, count as nat) == match entries_from(
                bytes@,
                p as int,
                (count - i) as nat,
            ) {
                None => None,
                Some((es, r)) => Some((pre + es, r)),
            },
        decreases count - i,
    {
        let ghost left = (count - i) as nat;
        let ghost rest = entries_from(bytes@, p as int, left);
        assert(rest == match entry_at(bytes@, p as int) {
            None => None,
            Some((e, q)) => match entries_from(bytes@, q, (left - 1) as nat) {
                None => None,
                Some((es, r)) => Some((seq![e] + es, r)),
            },
        });
        let n = match number(bytes, p) {
            Some(n) => n,
            None => return None,
        };
        assert(p + 4 <= bytes@.len());
        if n as usize > bytes.len() - (p + 4) {
            return None;
        }
        let q = p + 4 + n as usize;
        let name = vstd::slice::slice_subrange(bytes, p + 4, q);
        let wide = number(bytes, q);
        let tall = if bytes.len() >= 4 && q <= bytes.len() - 4 {
            number(bytes, q + 4)
        } else {
            None
        };
        let stride = if bytes.len() >= 8 && q <= bytes.len() - 8 {
            number(bytes, q + 8)
        } else {
            None
        };
        let at = if bytes.len() >= 12 && q <= bytes.len() - 12 {
            number(bytes, q + 12)
        } else {
            None
        };
        let long = if bytes.len() >= 16 && q <= bytes.len() - 16 {
            number(bytes, q + 16)
        } else {
            None
        };
        let (wide, tall, stride, at, long) = match (wide, tall, stride, at, long) {
            (Some(wide), Some(tall), Some(stride), Some(at), Some(long)) => (
                wide,
                tall,
                stride,
                at,
                long,
            ),
            _ => {
                assert(number_at(bytes@, q + 4) is None || number_at(bytes@, q + 8) is None
                    || number_at(bytes@, q + 12) is None || number_at(bytes@, q + 16) is None
                    || number_at(bytes@, q as int) is None);
                return None;
            },
        };
        let ghost e = Entry { name: name@, wide, tall, stride, at, long };
        assert(entry_at(bytes@, p as int) == Some((e, q + 20)));
        let of = match utf8(name) {
            Some(of) => of,
            None => {
                proof {
                    match entries_from(bytes@, q + 20, (left - 1) as nat) {
                        None => {},
                        Some((es, r)) => {
                            let whole = pre + (seq![e] + es);
                            assert(whole[pre.len() as int] == e);
                            assert(entries_from(bytes@, p as int, left) == Some((seq![e] + es, r)));
                            if indexed(whole, r, bytes@.len() as int) is Some {
                                lemma_indexed_each(whole, r, bytes@.len() as int);
                                assert(valid_utf8(whole[pre.len() as int].name));
                            }
                        },
                    }
                }
                return None;
            },
        };
        found.push((of, wide, tall, stride, at, long));
        proof {
            let was = pre;
            pre = pre.push(e);
            match entries_from(bytes@, q + 20, (left - 1) as nat) {
                None => {},
                Some((es, r)) => {
                    assert(was + (seq![e] + es) =~= pre + es);
                },
            }
        }
        p = q + 20;
        i += 1;
    }
    assert(pre + Seq::<Entry>::empty() =~= pre);
    let ghost stored = bytes@.len() as int;
    let mut index = Index::new();
    let mut k: usize = 0;
    while k < found.len()
        invariant
            k <= found@.len(),
            found@.len() == pre.len(),
            forall|j: int| 0 <= j < found@.len() ==> read_as(#[trigger] found@[j], pre[j]),
            read_of(bytes@) == indexed(pre, p as int, stored),
            stored == bytes@.len(),
            indexed(pre.take(k as int), p as int, stored) == Some(index@),
        decreases found.len() - k,
    {
        let f = &found[k];
        assert(read_as(found@[k as int], pre[k as int]));
        assert(pre.take(k + 1).drop_last() =~= pre.take(k as int));
        assert(pre.take(k + 1).last() == pre[k as int]);
        match placed_in(f.1, f.2, f.3, f.4, f.5, p, bytes.len()) {
            Some(w) => {
                index.insert(f.0.clone(), w);
            },
            None => {
                proof {
                    if indexed(pre, p as int, stored) is Some {
                        lemma_indexed_each(pre, p as int, stored);
                        assert(valid_utf8(pre[k as int].name));
                    }
                }
                return None;
            },
        }
        k += 1;
    }
    assert(pre.take(k as int) =~= pre);
    Some(index)
}

/// Whether a run of pictures can be written as a store and read back: it
/// is no longer than a `u32` counts, each name and each picture's pixels
/// are no longer than a `u32` counts, every picture's pixels start where a
/// `u32` reaches, each has pixels and enough of them for its own rows, and
/// the whole store is no longer than memory holds.
pub open spec fn storable(ps: Seq<Picture>) -> bool {
    &&& ps.len() <= u32::MAX
    &&& written_of(ps).len() <= usize::MAX
    &&& forall|i: int| 0 <= i < ps.len() ==> #[trigger] fits_at(ps, i)
}

/// Whether a run of pictures can be written in a store's own terms: it is
/// no longer than a `u32` counts, each name and each picture's pixels are no
/// longer than a `u32` counts, every picture's pixels start where a `u32`
/// reaches, and the whole store is no longer than memory holds.
pub open spec fn format_fits(ps: Seq<Picture>) -> bool {
    &&& ps.len() <= u32::MAX
    &&& written_of(ps).len() <= usize::MAX
    &&& forall|i: int| 0 <= i < ps.len() ==> #[trigger] fits_u32_at(ps, i)
}

/// Whether the picture at `i` can be written in a store's own terms: its
/// name and its pixels are no longer than a `u32` counts, and its pixels
/// start where a `u32` reaches.
pub open spec fn fits_u32_at(ps: Seq<Picture>, i: int) -> bool {
    let p = ps[i];
    &&& encode_utf8(p.of@).len() <= u32::MAX
    &&& p.pixels@.len() <= u32::MAX
    &&& body_of(ps.take(i)).len() <= u32::MAX
}

/// A run of pictures that can be written and read back can be written.
proof fn lemma_storable_fits(ps: Seq<Picture>)
    requires
        storable(ps),
    ensures
        format_fits(ps),
{
    assert forall|i: int| 0 <= i < ps.len() implies #[trigger] fits_u32_at(ps, i) by {
        assert(fits_at(ps, i));
    }
}

/// Whether the picture at `i` can be written and read back: its name and
/// its pixels are no longer than a `u32` counts, its pixels start where a
/// `u32` reaches, and it has pixels, and enough of them for its own rows.
pub open spec fn fits_at(ps: Seq<Picture>, i: int) -> bool {
    let p = ps[i];
    &&& encode_utf8(p.of@).len() <= u32::MAX
    &&& 0 < p.pixels@.len() <= u32::MAX
    &&& body_of(ps.take(i)).len() <= u32::MAX
    &&& p.stride * (if p.height == 0 {
        0
    } else {
        p.height - 1
    }) + p.width * 4 <= p.pixels@.len()
}

/// Where the picture at `i` of `ps` is in the store they are written as.
pub open spec fn where_of(ps: Seq<Picture>, i: int) -> Where {
    Where {
        width: ps[i].width,
        height: ps[i].height,
        stride: ps[i].stride,
        at: (21 + heads_of(ps).len() + body_of(ps.take(i)).len()) as u64,
        long: ps[i].pixels@.len() as u64,
    }
}

/// The first `n` pictures of `ps`, by name, where they are in the store
/// `ps` are written as, a later name standing over an earlier.
pub open spec fn stored_upto(ps: Seq<Picture>, n: int) -> Map<Seq<char>, Where>
    decreases n,
{
    if n <= 0 {
        Map::empty()
    } else {
        stored_upto(ps, n - 1).insert(ps[n - 1].of@, where_of(ps, n - 1))
    }
}

/// The first pictures' pixels are the start of more pictures' pixels.
proof fn lemma_body_prefix(ps: Seq<Picture>, j: int, k: int)
    requires
        0 <= j <= k <= ps.len(),
    ensures
        body_of(ps.take(j)).len() <= body_of(ps.take(k)).len(),
        body_of(ps.take(k)).subrange(0, body_of(ps.take(j)).len() as int) == body_of(ps.take(j)),
    decreases k - j,
{
    if j < k {
        lemma_body_prefix(ps, j, k - 1);
        assert(ps.take(k).drop_last() =~= ps.take(k - 1));
        let a = body_of(ps.take(j));
        let b = body_of(ps.take(k - 1));
        let c = body_of(ps.take(k));
        assert(c == b + ps[k - 1].pixels@);
        assert(c.subrange(0, a.len() as int) =~= b.subrange(0, a.len() as int));
    } else {
        assert(body_of(ps.take(k)).subrange(0, body_of(ps.take(j)).len() as int) =~= body_of(
            ps.take(j),
        ));
    }
}

/// The list of the first pictures is the start of the list of more.
proof fn lemma_heads_prefix(ps: Seq<Picture>, j: int, k: int)
    requires
        0 <= j <= k <= ps.len(),
    ensures
        heads_of(ps.take(j)).len() <= heads_of(ps.take(k)).len(),
        heads_of(ps.take(k)).subrange(0, heads_of(ps.take(j)).len() as int) == heads_of(
            ps.take(j),
        ),
    decreases k - j,
{
    if j < k {
        lemma_heads_prefix(ps, j, k - 1);
        assert(ps.take(k).drop_last() =~= ps.take(k - 1));
        let a = heads_of(ps.take(j));
        let b = heads_of(ps.take(k - 1));
        let c = heads_of(ps.take(k));
        assert(c.subrange(0, a.len() as int) =~= b.subrange(0, a.len() as int));
    } else {
        assert(heads_of(ps.take(k)).subrange(0, heads_of(ps.take(j)).len() as int) =~= heads_of(
            ps.take(j),
        ));
    }
}

/// Where the list says the picture at `i` of `ps` in their store.
pub open spec fn head_at(ps: Seq<Picture>, i: int) -> int {
    21 + heads_of(ps.take(i)).len() as int
}

/// What the list of the store `ps` are written as says of the picture at
/// `i`.
pub open spec fn entry_seen(ps: Seq<Picture>, i: int) -> Entry {
    Entry {
        name: encode_utf8(ps[i].of@),
        wide: ps[i].width,
        tall: ps[i].height,
        stride: ps[i].stride,
        at: fit32(body_of(ps.take(i)).len() as int),
        long: fit32(ps[i].pixels@.len() as int),
    }
}

/// A run inside a run inside a run is inside the outer run.
proof fn lemma_inside(whole: Seq<u8>, a: int, x: Seq<u8>, b: int, y: Seq<u8>)
    requires
        0 <= a,
        a + x.len() <= whole.len(),
        whole.subrange(a, a + x.len()) == x,
        0 <= b,
        b + y.len() <= x.len(),
        x.subrange(b, b + y.len()) == y,
    ensures
        whole.subrange(a + b, a + b + y.len()) == y,
{
    assert(whole.subrange(a + b, a + b + y.len()) =~= y) by {
        assert forall|k: int| 0 <= k < y.len() implies whole.subrange(a + b, a + b + y.len())[k]
            == y[k] by {
            assert(x[b + k] == y[k]);
            assert(whole[a + b + k] == x[b + k]);
        }
    }
}

/// The number read where a number was written is that number.
proof fn lemma_number_at(bytes: Seq<u8>, p: int, n: u32)
    requires
        0 <= p,
        p + 4 <= bytes.len(),
        bytes.subrange(p, p + 4) == le(n),
    ensures
        number_at(bytes, p) == Some(n),
{
    lemma_le(n);
}

/// What is written of one picture is read back as it was written.
proof fn lemma_entry_read(
    bytes: Seq<u8>,
    p: int,
    name: Seq<u8>,
    w: u32,
    h: u32,
    st: u32,
    at: u32,
    long: u32,
)
    requires
        0 <= p,
        name.len() <= u32::MAX,
        p + 24 + name.len() <= bytes.len(),
        bytes.subrange(p, p + 24 + name.len()) == le(name.len() as u32) + name + le(w) + le(h) + le(
            st,
        ) + le(at) + le(long),
    ensures
        entry_at(bytes, p) == Some(
            (Entry { name, wide: w, tall: h, stride: st, at, long }, p + 24 + name.len()),
        ),
{
    let l = name.len() as int;
    let e = le(name.len() as u32) + name + le(w) + le(h) + le(st) + le(at) + le(long);
    lemma_le(name.len() as u32);
    lemma_le(w);
    lemma_le(h);
    lemma_le(st);
    lemma_le(at);
    lemma_le(long);
    assert(e.len() == 24 + l);
    assert(e.subrange(0, 4) =~= le(name.len() as u32));
    lemma_inside(bytes, p, e, 0, le(name.len() as u32));
    lemma_number_at(bytes, p, name.len() as u32);
    assert(e.subrange(4, 4 + l) =~= name);
    lemma_inside(bytes, p, e, 4, name);
    let q = p + 4 + l;
    assert(e.subrange(4 + l, 8 + l) =~= le(w));
    lemma_inside(bytes, p, e, 4 + l, le(w));
    lemma_number_at(bytes, q, w);
    assert(e.subrange(8 + l, 12 + l) =~= le(h));
    lemma_inside(bytes, p, e, 8 + l, le(h));
    lemma_number_at(bytes, q + 4, h);
    assert(e.subrange(12 + l, 16 + l) =~= le(st));
    lemma_inside(bytes, p, e, 12 + l, le(st));
    lemma_number_at(bytes, q + 8, st);
    assert(e.subrange(16 + l, 20 + l) =~= le(at));
    lemma_inside(bytes, p, e, 16 + l, le(at));
    lemma_number_at(bytes, q + 12, at);
    assert(e.subrange(20 + l, 24 + l) =~= le(long));
    lemma_inside(bytes, p, e, 20 + l, le(long));
    lemma_number_at(bytes, q + 16, long);
}

/// What the list says of the picture at `i` is at its place in the store.
proof fn lemma_entry_in_store(ps: Seq<Picture>, i: int)
    requires
        0 <= i < ps.len(),
    ensures
        ({
            let e = entry_of(ps[i], fit32(body_of(ps.take(i)).len() as int));
            &&& head_at(ps, i + 1) == head_at(ps, i) + e.len()
            &&& head_at(ps, i) + e.len() <= 21 + heads_of(ps).len()
            &&& 21 + heads_of(ps).len() <= written_of(ps).len()
            &&& written_of(ps).subrange(head_at(ps, i), head_at(ps, i) + e.len()) == e
        }),
{
    let bytes = written_of(ps);
    let h = heads_of(ps);
    let c = le(fit32(ps.len() as int));
    lemma_le(fit32(ps.len() as int));
    assert(ps.take(ps.len() as int) =~= ps);
    lemma_heads_prefix(ps, i + 1, ps.len() as int);
    assert(ps.take(i + 1).drop_last() =~= ps.take(i));
    assert(ps.take(i + 1).last() == ps[i]);
    let before = heads_of(ps.take(i));
    let upto = heads_of(ps.take(i + 1));
    let e = entry_of(ps[i], fit32(body_of(ps.take(i)).len() as int));
    assert(upto == before + e);
    assert(bytes.subrange(21, 21 + h.len() as int) =~= h);
    assert(upto.subrange(before.len() as int, (before.len() + e.len()) as int) =~= e);
    lemma_inside(bytes, 21, h, 0, upto);
    lemma_inside(bytes, 21, upto, before.len() as int, e);
}

/// The list of a store says of each picture what was written of it.
proof fn lemma_entry_at(ps: Seq<Picture>, i: int)
    requires
        format_fits(ps),
        0 <= i < ps.len(),
    ensures
        entry_at(written_of(ps), head_at(ps, i)) == Some((entry_seen(ps, i), head_at(ps, i + 1))),
{
    lemma_entry_in_store(ps, i);
    let p = ps[i];
    assert(fits_u32_at(ps, i));
    let e = entry_of(p, fit32(body_of(ps.take(i)).len() as int));
    lemma_le(fit32(encode_utf8(p.of@).len() as int));
    lemma_le(p.width);
    lemma_le(p.height);
    lemma_le(p.stride);
    lemma_le(fit32(body_of(ps.take(i)).len() as int));
    lemma_le(fit32(p.pixels@.len() as int));
    assert(e.len() == 24 + encode_utf8(p.of@).len());
    lemma_entry_read(
        written_of(ps),
        head_at(ps, i),
        encode_utf8(p.of@),
        p.width,
        p.height,
        p.stride,
        fit32(body_of(ps.take(i)).len() as int),
        fit32(p.pixels@.len() as int),
    );
}

/// What the list says of every picture from `i` on.
pub open spec fn entries_seen(ps: Seq<Picture>, i: int) -> Seq<Entry> {
    Seq::new((ps.len() - i) as nat, |k: int| entry_seen(ps, i + k))
}

/// The list of a store says of every picture from `i` on what was written
/// of it, and ends where the list ends.
proof fn lemma_entries(ps: Seq<Picture>, i: int)
    requires
        format_fits(ps),
        0 <= i <= ps.len(),
    ensures
        entries_from(written_of(ps), head_at(ps, i), (ps.len() - i) as nat) == Some(
            (entries_seen(ps, i), head_at(ps, ps.len() as int)),
        ),
    decreases ps.len() - i,
{
    if i == ps.len() {
        assert(entries_seen(ps, i) =~= Seq::<Entry>::empty());
    } else {
        lemma_entry_at(ps, i);
        lemma_entries(ps, i + 1);
        assert(entries_seen(ps, i) =~= seq![entry_seen(ps, i)] + entries_seen(ps, i + 1));
    }
}

/// The pictures the list of a store says, up to `n`, are the pictures
/// written, by name, where they were written.
proof fn lemma_indexed(ps: Seq<Picture>, n: int)
    requires
        storable(ps),
        0 <= n <= ps.len(),
    ensures
        indexed(
            entries_seen(ps, 0).take(n),
            head_at(ps, ps.len() as int),
            written_of(ps).len() as int,
        ) == Some(stored_upto(ps, n)),
    decreases n,
{
    let es = entries_seen(ps, 0);
    let began = head_at(ps, ps.len() as int);
    let stored = written_of(ps).len() as int;
    if n == 0 {
        assert(es.take(0) =~= Seq::<Entry>::empty());
    } else {
        lemma_indexed(ps, n - 1);
        assert(es.take(n).drop_last() =~= es.take(n - 1));
        let i = n - 1;
        let e = es.take(n).last();
        assert(e == entry_seen(ps, i));
        assert(fits_at(ps, i));
        vstd::utf8::encode_utf8_valid_utf8(ps[i].of@);
        vstd::utf8::encode_utf8_decode_utf8(ps[i].of@);
        assert(ps.take(ps.len() as int) =~= ps);
        lemma_body_prefix(ps, i + 1, ps.len() as int);
        assert(ps.take(i + 1).drop_last() =~= ps.take(i));
        assert(ps.take(i + 1).last() == ps[i]);
        assert(body_of(ps.take(i + 1)).len() == body_of(ps.take(i)).len() + ps[i].pixels@.len());
        assert(began == 21 + heads_of(ps).len());
        assert(stored == 21 + heads_of(ps).len() + body_of(ps).len()) by {
            lemma_le(fit32(ps.len() as int));
        }
        assert(stands(e, began, stored) == Some(where_of(ps, i)));
    }
}

/// A store says where each picture written in it is and how big: read back,
/// a store holding `ps` holds each of them under its name, its pixels where
/// they were written and as long as they are, a later picture of a name
/// standing over an earlier -- for every run of pictures that can be written
/// at all.
pub proof fn lemma_a_store_reads_back(ps: Seq<Picture>)
    requires
        storable(ps),
    ensures
        read_of(written_of(ps)) == Some(stored_upto(ps, ps.len() as int)),
{
    let bytes = written_of(ps);
    let c = fit32(ps.len() as int);
    lemma_le(c);
    assert(bytes.take(17) =~= MAGIC@);
    assert(bytes.subrange(17, 21) =~= le(c));
    lemma_number_at(bytes, 17, c);
    assert(c == ps.len());
    lemma_storable_fits(ps);
    assert(ps.take(0) =~= Seq::<Picture>::empty());
    assert(head_at(ps, 0) == 21);
    lemma_entries(ps, 0);
    lemma_indexed(ps, ps.len() as int);
    assert(entries_seen(ps, 0).take(ps.len() as int) =~= entries_seen(ps, 0));
}

/// Whether no two of `ps` are made from the same file.
pub open spec fn named_apart(ps: Seq<Picture>) -> bool {
    forall|a: int, b: int|
        0 <= a < ps.len() && 0 <= b < ps.len() && #[trigger] ps[a].of@ == #[trigger] ps[b].of@ ==> a
            == b
}

/// The first `n` pictures, named apart, are each stored under their name,
/// where they were written, and under no other name.
proof fn lemma_stored_upto_holds(ps: Seq<Picture>, n: int)
    requires
        named_apart(ps),
        0 <= n <= ps.len(),
    ensures
        stored_upto(ps, n).dom().finite(),
        stored_upto(ps, n).dom().len() == n,
        forall|i: int| 0 <= i < n ==> #[trigger] stored_upto(ps, n).contains_key(ps[i].of@)
            && stored_upto(ps, n)[ps[i].of@] == where_of(ps, i),
        forall|k: Seq<char>| #[trigger] stored_upto(ps, n).contains_key(k) ==> exists|j: int|
            0 <= j < n && ps[j].of@ == k,
    decreases n,
{
    if n > 0 {
        lemma_stored_upto_holds(ps, n - 1);
        let before = stored_upto(ps, n - 1);
        let key = ps[n - 1].of@;
        assert(!before.contains_key(key)) by {
            if before.contains_key(key) {
                let j = choose|j: int| 0 <= j < n - 1 && ps[j].of@ == key;
                assert(ps[j].of@ == ps[n - 1].of@);
            }
        }
        assert forall|i: int| 0 <= i < n implies #[trigger] stored_upto(ps, n).contains_key(
            ps[i].of@,
        ) && stored_upto(ps, n)[ps[i].of@] == where_of(ps, i) by {
            if i < n - 1 {
                assert(before.contains_key(ps[i].of@));
                if ps[i].of@ == key {
                    assert(ps[i].of@ == ps[n - 1].of@);
                }
            }
        }
        assert forall|k: Seq<char>| #[trigger] stored_upto(ps, n).contains_key(k) implies exists|
            j: int,
        | 0 <= j < n && ps[j].of@ == k by {
            if k != key {
                assert(before.contains_key(k));
                let j = choose|j: int| 0 <= j < n - 1 && ps[j].of@ == k;
                assert(0 <= j < n && ps[j].of@ == k);
            } else {
                assert(0 <= n - 1 < n && ps[n - 1].of@ == k);
            }
        }
    }
}

/// Each picture's pixels are where the store says they are.
proof fn lemma_pixels_in_store(ps: Seq<Picture>, i: int)
    requires
        storable(ps),
        0 <= i < ps.len(),
    ensures
        end_of(where_of(ps, i)) <= written_of(ps).len(),
        written_of(ps).subrange(where_of(ps, i).at as int, end_of(where_of(ps, i)))
            == ps[i].pixels@,
{
    let whole = written_of(ps);
    let n = ps.len() as int;
    lemma_le(fit32(n));
    let h = heads_of(ps);
    let body = body_of(ps);
    assert(ps.take(n) =~= ps);
    lemma_body_prefix(ps, i + 1, n);
    assert(ps.take(i + 1).drop_last() =~= ps.take(i));
    assert(ps.take(i + 1).last() == ps[i]);
    let before = body_of(ps.take(i));
    let upto = body_of(ps.take(i + 1));
    let pixels = ps[i].pixels@;
    assert(upto == before + pixels);
    assert(upto.subrange(before.len() as int, (before.len() + pixels.len()) as int) =~= pixels);
    assert(whole.len() == 21 + h.len() + body.len());
    let a = 21 + h.len() as int;
    assert(whole.subrange(a, a + body.len()) =~= body);
    lemma_inside(whole, a, body, 0, upto);
    lemma_inside(whole, a, upto, before.len() as int, pixels);
    assert(21 + h.len() + before.len() + pixels.len() <= whole.len());
}

/// A store holds every picture written in it, as many as were written when
/// they are named apart, each under its name where its pixels are: read
/// back, the place a picture is said to be holds that picture's pixels.
pub proof fn lemma_a_store_holds_each_picture_written(ps: Seq<Picture>)
    requires
        storable(ps),
        named_apart(ps),
    ensures
        read_of(written_of(ps)) matches Some(m) && m.dom().len() == ps.len() && forall|i: int|
            0 <= i < ps.len() ==> #[trigger] m.contains_key(ps[i].of@) && m[ps[i].of@] == where_of(
                ps,
                i,
            ) && end_of(m[ps[i].of@]) <= written_of(ps).len() && written_of(ps).subrange(
                m[ps[i].of@].at as int,
                end_of(m[ps[i].of@]),
            ) == ps[i].pixels@,
{
    let n = ps.len() as int;
    let m = stored_upto(ps, n);
    assert(read_of(written_of(ps)) == Some(m)) by {
        lemma_a_store_reads_back(ps);
    }
    assert(m.dom().len() == n && forall|i: int|
        0 <= i < n ==> #[trigger] m.contains_key(ps[i].of@) && m[ps[i].of@] == where_of(ps, i)
            && end_of(m[ps[i].of@]) <= written_of(ps).len() && written_of(ps).subrange(
            m[ps[i].of@].at as int,
            end_of(m[ps[i].of@]),
        ) == ps[i].pixels@) by {
        lemma_stored_upto_holds(ps, n);
        assert forall|i: int| 0 <= i < n implies #[trigger] m.contains_key(ps[i].of@)
            && m[ps[i].of@] == where_of(ps, i) && end_of(m[ps[i].of@]) <= written_of(ps).len()
            && written_of(ps).subrange(m[ps[i].of@].at as int, end_of(m[ps[i].of@]))
            == ps[i].pixels@ by {
            assert(m.contains_key(ps[i].of@));
            lemma_pixels_in_store(ps, i);
        }
    }
}

/// A number read from the start of some bytes is read the same from all of
/// them.
proof fn lemma_number_in_prefix(b: Seq<u8>, k: int, p: int)
    requires
        0 <= k <= b.len(),
        number_at(b.take(k), p) is Some,
    ensures
        number_at(b, p) == number_at(b.take(k), p),
{
    assert(b.take(k).subrange(p, p + 4) =~= b.subrange(p, p + 4));
}

/// What the list says of a picture, read from the start of some bytes, is
/// read the same from all of them.
proof fn lemma_entry_in_prefix(b: Seq<u8>, k: int, p: int)
    requires
        0 <= k <= b.len(),
        entry_at(b.take(k), p) is Some,
    ensures
        entry_at(b, p) == entry_at(b.take(k), p),
{
    let c = b.take(k);
    lemma_number_in_prefix(b, k, p);
    let n = number_at(c, p)->0;
    let q = p + 4 + n;
    lemma_number_in_prefix(b, k, q);
    lemma_number_in_prefix(b, k, q + 4);
    lemma_number_in_prefix(b, k, q + 8);
    lemma_number_in_prefix(b, k, q + 12);
    lemma_number_in_prefix(b, k, q + 16);
    assert(c.subrange(p + 4, q) =~= b.subrange(p + 4, q));
}

/// What the list says of some pictures, read from the start of some bytes,
/// is read the same from all of them, and ends at the same place.
proof fn lemma_entries_in_prefix(b: Seq<u8>, k: int, p: int, count: nat)
    requires
        0 <= k <= b.len(),
        entries_from(b.take(k), p, count) is Some,
    ensures
        entries_from(b, p, count) == entries_from(b.take(k), p, count),
    decreases count,
{
    if count > 0 {
        let c = b.take(k);
        lemma_entry_in_prefix(b, k, p);
        let read = entry_at(c, p)->0;
        let q = read.1;
        lemma_entries_in_prefix(b, k, q, (count - 1) as nat);
    }
}

/// A list whose pictures are all placed places its last one.
proof fn lemma_indexed_places_the_last(es: Seq<Entry>, began: int, stored: int)
    requires
        es.len() > 0,
        indexed(es, began, stored) is Some,
    ensures
        stands(es.last(), began, stored) is Some,
{
}

/// Half a store is no store, rather than the pictures that still fit: any
/// run of bytes shorter than a store holding `ps` is read as nothing at all,
/// for every run of pictures a store can be written of.
pub proof fn lemma_half_a_store_is_no_store(ps: Seq<Picture>, k: int)
    requires
        format_fits(ps),
        0 <= k < written_of(ps).len(),
    ensures
        read_of(written_of(ps).take(k)) is None,
{
    let full = written_of(ps);
    let cut = full.take(k);
    let n = ps.len() as int;
    let c = fit32(n);
    lemma_le(c);
    assert(full.len() == 21 + heads_of(ps).len() + body_of(ps).len());
    if k >= 17 {
        assert(cut.take(17) =~= full.take(17));
        if number_at(cut, 17) is Some {
            lemma_number_in_prefix(full, k, 17);
            assert(full.subrange(17, 21) =~= le(c));
            lemma_number_at(full, 17, c);
            assert(c == n);
            if entries_from(cut, 21, c as nat) is Some {
                lemma_entries_in_prefix(full, k, 21, c as nat);
                assert(ps.take(0) =~= Seq::<Picture>::empty());
                assert(head_at(ps, 0) == 21);
                lemma_entries(ps, 0);
                let es = entries_seen(ps, 0);
                let began = head_at(ps, n);
                assert(ps.take(n) =~= ps);
                if n == 0 {
                    assert(heads_of(ps) =~= Seq::<u8>::empty());
                    assert(body_of(ps) =~= Seq::<u8>::empty());
                    assert(false);
                } else {
                    let i = n - 1;
                    assert(es.last() == entry_seen(ps, i));
                    assert(fits_u32_at(ps, i));
                    assert(ps.take(i + 1).drop_last() =~= ps.take(i));
                    assert(ps.take(i + 1).last() == ps[i]);
                    assert(body_of(ps).len() == body_of(ps.take(i)).len() + ps[i].pixels@.len());
                    assert(stands(es.last(), began, k) is None);
                    if indexed(es, began, k) is Some {
                        lemma_indexed_places_the_last(es, began, k);
                    }
                }
            }
        }
    }
}

/// Which of the pictures `wanted`, made at `side`, the store `held` does not
/// hold, in the order they were wanted: every one of them when there is no
/// store.
pub open spec fn missing_of(
    wanted: Seq<Seq<char>>,
    side: Side,
    held: Option<Map<Seq<char>, Where>>,
) -> Seq<Seq<char>>
    decreases wanted.len(),
{
    if wanted.len() == 0 {
        Seq::empty()
    } else {
        missing_of(wanted.drop_last(), side, held) + match held {
            Some(m) => if m.contains_key(keyed_of(wanted.last(), side)) {
                Seq::empty()
            } else {
                seq![wanted.last()]
            },
            None => seq![wanted.last()],
        }
    }
}

/// The characters of each of some strings.
pub open spec fn strings(v: Seq<String>) -> Seq<Seq<char>> {
    v.map_values(|s: String| s@)
}

/// The store held, as a map, if there is one.
pub open spec fn held_map(held: Option<&Index>) -> Option<Map<Seq<char>, Where>> {
    match held {
        Some(index) => Some(index@),
        None => None,
    }
}

/// Which of the pictures wanted, made at `side`, the store held does not
/// hold.
pub fn missing_at(wanted: &Vec<String>, side: Side, held: Option<&Index>) -> (r: Vec<String>)
    ensures
        strings(r@) == missing_of(strings(wanted@), side, held_map(held)),
{
    let mut short: Vec<String> = Vec::new();
    let mut i: usize = 0;
    while i < wanted.len()
        invariant
            i <= wanted@.len(),
            strings(short@) == missing_of(strings(wanted@).take(i as int), side, held_map(held)),
        decreases wanted.len() - i,
    {
        let of = &wanted[i];
        let named = keyed(of.as_str(), side);
        let there = match held {
            Some(index) => index.contains_key(named.as_str()),
            None => false,
        };
        let ghost before = strings(short@);
        assert(strings(wanted@).take(i + 1).drop_last() =~= strings(wanted@).take(i as int));
        assert(strings(wanted@).take(i + 1).last() == of@);
        if !there {
            short.push(of.clone());
            assert(strings(short@) =~= before.push(of@));
        } else {
            assert(before + Seq::<Seq<char>>::empty() =~= before);
        }
        i += 1;
    }
    assert(strings(wanted@).take(i as int) =~= strings(wanted@));
    short
}

/// Which of the pictures wanted a row's side the store held does not hold.
pub fn missing(wanted: &Vec<String>, held: Option<&Index>) -> (r: Vec<String>)
    ensures
        strings(r@) == missing_of(strings(wanted@), a_row_side(), held_map(held)),
{
    missing_at(wanted, a_row(), held)
}

/// The side a row draws its picture at.
pub open spec fn a_row_side() -> Side {
    Side(crate::strip::PICTURE as u32)
}

/// Which of the pictures `wanted`, made at `side`, have not been asked of
/// the maker before, given what has been asked, `asked`: each once, the
/// first time it is wanted.
pub open spec fn fresh_of(wanted: Seq<Seq<char>>, side: Side, asked: Set<Seq<char>>) -> Seq<
    Seq<char>,
>
    decreases wanted.len(),
{
    if wanted.len() == 0 {
        Seq::empty()
    } else if asked.contains(keyed_of(wanted[0], side)) {
        fresh_of(wanted.drop_first(), side, asked)
    } else {
        seq![wanted[0]] + fresh_of(
            wanted.drop_first(),
            side,
            asked.insert(keyed_of(wanted[0], side)),
        )
    }
}

/// What has been asked of the maker once `wanted` at `side` is asked too.
pub open spec fn asked_after(wanted: Seq<Seq<char>>, side: Side, asked: Set<Seq<char>>) -> Set<
    Seq<char>,
> {
    asked.union(Set::new(|k: Seq<char>| exists|i: int| 0 <= i < wanted.len() && k == keyed_of(#[trigger] wanted[i], side)))
}

/// Nothing already asked for is asked for again.
proof fn lemma_nothing_fresh(wanted: Seq<Seq<char>>, side: Side, asked: Set<Seq<char>>)
    requires
        forall|i: int| 0 <= i < wanted.len() ==> asked.contains(keyed_of(#[trigger] wanted[i], side)),
    ensures
        fresh_of(wanted, side, asked).len() == 0,
    decreases wanted.len(),
{
    if wanted.len() > 0 {
        assert(asked.contains(keyed_of(wanted[0], side)));
        assert forall|i: int| 0 <= i < wanted.drop_first().len() implies asked.contains(
            keyed_of(#[trigger] wanted.drop_first()[i], side),
        ) by {
            assert(wanted.drop_first()[i] == wanted[i + 1]);
        }
        lemma_nothing_fresh(wanted.drop_first(), side, asked);
    }
}

/// Asking the maker for the same pictures again asks for nothing: once
/// `wanted` has been asked for, none of it is fresh.
pub proof fn lemma_asking_again_asks_for_nothing(wanted: Seq<Seq<char>>, side: Side, asked: Set<Seq<char>>)
    ensures
        fresh_of(wanted, side, asked_after(wanted, side, asked)).len() == 0,
{
    assert forall|i: int| 0 <= i < wanted.len() implies asked_after(wanted, side, asked).contains(
        keyed_of(#[trigger] wanted[i], side),
    ) by {
        let k = keyed_of(wanted[i], side);
        assert(Set::new(|k: Seq<char>| exists|i: int| 0 <= i < wanted.len() && k == keyed_of(#[trigger] wanted[i], side)).contains(k));
    }
    lemma_nothing_fresh(wanted, side, asked_after(wanted, side, asked));
}

/// What the maker is asked to make: the side, then each picture.
pub open spec fn maker_asked(side: Side, fresh: Seq<Seq<char>>) -> Seq<Seq<char>> {
    seq![SIDE@, digits(side.0 as nat)] + fresh
}

/// The names some strings hold, as a set.
pub open spec fn set_of(v: Seq<String>) -> Set<Seq<char>> {
    Set::new(|k: Seq<char>| strings(v).contains(k))
}

/// Whether one of some strings says `name`.
fn holds_name(v: &Vec<String>, name: &Vec<char>) -> (r: bool)
    ensures
        r == strings(v@).contains(name@),
{
    let mut j: usize = 0;
    while j < v.len()
        invariant
            j <= v@.len(),
            forall|m: int| 0 <= m < j ==> #[trigger] strings(v@)[m] != name@,
        decreases v.len() - j,
    {
        if text::same(&text::letters(v[j].as_str()), name) {
            assert(strings(v@)[j as int] == name@);
            return true;
        }
        j += 1;
    }
    false
}

/// What the maker is to be asked for the pictures `wanted` at `side`, if
/// anything: the pictures not asked for before, noted in `asked` as asked,
/// or nothing when every one of them has been.
pub fn make_at(wanted: &Vec<String>, side: Side, asked: &mut Vec<String>) -> (r: Option<
    Vec<String>,
>)
    ensures
        set_of(final(asked)@) == asked_after(strings(wanted@), side, set_of(old(asked)@)),
        match r {
            Some(arguments) => fresh_of(strings(wanted@), side, set_of(old(asked)@)).len() > 0
                && strings(arguments@) == maker_asked(
                side,
                fresh_of(strings(wanted@), side, set_of(old(asked)@)),
            ),
            None => fresh_of(strings(wanted@), side, set_of(old(asked)@)).len() == 0,
        },
{
    let ghost w = strings(wanted@);
    let ghost was = set_of(asked@);
    let mut fresh: Vec<String> = Vec::new();
    assert(w.skip(0) =~= w);
    assert(strings(fresh@) + fresh_of(w, side, was) =~= fresh_of(w, side, was));
    assert(asked_after(w.take(0), side, was) =~= was);
    let mut i: usize = 0;
    while i < wanted.len()
        invariant
            i <= wanted@.len(),
            w == strings(wanted@),
            strings(fresh@) + fresh_of(w.skip(i as int), side, set_of(asked@)) == fresh_of(
                w,
                side,
                was,
            ),
            set_of(asked@) == asked_after(w.take(i as int), side, was),
        decreases wanted.len() - i,
    {
        let named = keyed(wanted[i].as_str(), side);
        let ghost before = strings(fresh@);
        let ghost set = set_of(asked@);
        let ghost key = keyed_of(w[i as int], side);
        assert(w.skip(i as int)[0] == w[i as int]);
        assert(w.skip(i as int).drop_first() =~= w.skip(i + 1));
        let seen = holds_name(asked, &text::letters(named.as_str()));
        assert(seen == set.contains(key));
        if !seen {
            let ghost old_asked = strings(asked@);
            asked.push(named);
            fresh.push(wanted[i].clone());
            proof {
                assert(strings(asked@) =~= old_asked.push(key));
                assert forall|k: Seq<char>| set_of(asked@).contains(k) <==> set.insert(key).contains(
                    k,
                ) by {
                    vstd::seq_lib::lemma_seq_contains_after_push(old_asked, key, k);
                }
                assert(set_of(asked@) =~= set.insert(key));
                assert(strings(fresh@) =~= before.push(w[i as int]));
                assert(before + fresh_of(w.skip(i as int), side, set) =~= strings(fresh@) + fresh_of(
                    w.skip(i + 1),
                    side,
                    set_of(asked@),
                ));
            }
        } else {
            assert(set.insert(key) =~= set);
        }
        proof {
            assert(w.take(i + 1) =~= w.take(i as int).push(w[i as int]));
            assert forall|k: Seq<char>| asked_after(w.take(i + 1), side, was).contains(k)
                <==> asked_after(w.take(i as int), side, was).insert(key).contains(k) by {
                if exists|m: int| 0 <= m < i + 1 && k == keyed_of(#[trigger] w.take(i + 1)[m], side) {
                    let m = choose|m: int|
                        0 <= m < i + 1 && k == keyed_of(#[trigger] w.take(i + 1)[m], side);
                    if m < i {
                        assert(w.take(i as int)[m] == w.take(i + 1)[m]);
                    }
                }
                if exists|m: int| 0 <= m < i && k == keyed_of(#[trigger] w.take(i as int)[m], side) {
                    let m = choose|m: int|
                        0 <= m < i && k == keyed_of(#[trigger] w.take(i as int)[m], side);
                    assert(w.take(i + 1)[m] == w.take(i as int)[m]);
                }
                if k == key {
                    assert(w.take(i + 1)[i as int] == w[i as int]);
                }
            }
            assert(asked_after(w.take(i + 1), side, was) =~= asked_after(
                w.take(i as int),
                side,
                was,
            ).insert(key));
        }
        i += 1;
    }
    assert(w.skip(i as int) =~= Seq::<Seq<char>>::empty());
    assert(w.take(i as int) =~= w);
    assert(strings(fresh@) + Seq::<Seq<char>>::empty() =~= strings(fresh@));
    if fresh.len() == 0 {
        return None;
    }
    let mut arguments: Vec<String> = Vec::new();
    arguments.push(text::text(&text::letters(SIDE)));
    arguments.push(text::text(&crate::decimal::written(side.0 as u64)));
    let mut k: usize = 0;
    while k < fresh.len()
        invariant
            k <= fresh@.len(),
            strings(arguments@) == seq![SIDE@, digits(side.0 as nat)] + strings(fresh@).take(
                k as int,
            ),
        decreases fresh.len() - k,
    {
        let ghost before = strings(arguments@);
        arguments.push(fresh[k].clone());
        assert(strings(arguments@) =~= before.push(fresh@[k as int]@));
        assert(strings(fresh@).take(k + 1) =~= strings(fresh@).take(k as int).push(
            fresh@[k as int]@,
        ));
        k += 1;
    }
    assert(strings(fresh@).take(k as int) =~= strings(fresh@));
    Some(arguments)
}

/// What the maker is to be asked for the pictures wanted at a row's side,
/// if anything.
pub fn make(wanted: &Vec<String>, asked: &mut Vec<String>) -> (r: Option<Vec<String>>)
    ensures
        set_of(final(asked)@) == asked_after(strings(wanted@), a_row_side(), set_of(old(asked)@)),
        match r {
            Some(arguments) => fresh_of(strings(wanted@), a_row_side(), set_of(old(asked)@)).len()
                > 0 && strings(arguments@) == maker_asked(
                a_row_side(),
                fresh_of(strings(wanted@), a_row_side(), set_of(old(asked)@)),
            ),
            None => fresh_of(strings(wanted@), a_row_side(), set_of(old(asked)@)).len() == 0,
        },
{
    make_at(wanted, a_row(), asked)
}

} // verus!
