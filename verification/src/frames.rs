//! What wakes the loop that draws, said in one byte a notice.
//!
//! Whoever changes what is on the card -- a picture decoded, the rows read
//! again, the card shut -- writes one byte down a socket the loop sleeps on,
//! and the loop reads everything written since it last looked. The socket and
//! the sleeping are the program's around this; what each byte stands for, and
//! what a run of them adds up to, is here.

use vstd::prelude::*;

use crate::text;

verus! {

/// What has changed.
#[derive(Debug, Clone, Copy, PartialEq, Eq, Structural)]
pub enum Notice {
    Frame,
    Card,
    Rows,
    Closed,
}

/// Whether a notice of one kind has arrived.
#[derive(Debug, Clone, Copy, PartialEq, Eq, Structural)]
pub enum FrameReceived {
    Yes,
    No,
}

impl Default for FrameReceived {
    fn default() -> (r: FrameReceived)
        ensures
            r == FrameReceived::No,
    {
        FrameReceived::No
    }
}

/// Which notices have arrived since the loop last looked.
#[derive(Debug, Clone, Copy, PartialEq, Eq, Structural)]
pub struct Woken {
    pub frame: FrameReceived,
    pub card: FrameReceived,
    pub rows: FrameReceived,
}

impl Default for Woken {
    fn default() -> (r: Woken)
        ensures
            r == nothing_heard(),
    {
        Woken { frame: FrameReceived::No, card: FrameReceived::No, rows: FrameReceived::No }
    }
}

/// Whether a wait for a first look ran out or was cut short by a notice.
#[derive(Debug, Clone, Copy, PartialEq, Eq, Structural)]
pub enum Listened {
    Notified,
    RanOut,
}

/// Nothing has arrived.
pub open spec fn nothing_heard() -> Woken {
    Woken { frame: FrameReceived::No, card: FrameReceived::No, rows: FrameReceived::No }
}

/// A notice arrived when it arrived either time.
pub open spec fn either(a: FrameReceived, b: FrameReceived) -> FrameReceived {
    if a == FrameReceived::Yes || b == FrameReceived::Yes {
        FrameReceived::Yes
    } else {
        FrameReceived::No
    }
}

impl FrameReceived {
    /// Arrived now or arrived later.
    fn or(self, later: FrameReceived) -> (r: FrameReceived)
        ensures
            r == either(self, later),
    {
        match (self, later) {
            (FrameReceived::No, FrameReceived::No) => FrameReceived::No,
            (FrameReceived::Yes, _) | (FrameReceived::No, FrameReceived::Yes) => FrameReceived::Yes,
        }
    }
}

/// Two lots of notices taken together.
pub open spec fn both(a: Woken, b: Woken) -> Woken {
    Woken {
        frame: either(a.frame, b.frame),
        card: either(a.card, b.card),
        rows: either(a.rows, b.rows),
    }
}

impl Woken {
    /// What had arrived, and what has arrived since.
    pub fn and(self, later: Woken) -> (r: Woken)
        ensures
            r == both(self, later),
    {
        let frame = self.frame.or(later.frame);
        let card = self.card.or(later.card);
        let rows = self.rows.or(later.rows);
        Woken { frame, card, rows }
    }
}

/// Taking notices together does not care which came first, and taking the
/// same ones twice is taking them once.
pub proof fn lemma_notices_add_up(a: Woken, b: Woken)
    ensures
        both(a, b) == both(b, a),
        both(a, a) == a,
        both(a, nothing_heard()) == a,
{
}

/// The byte that carries a notice.
pub open spec fn byte_of(what: Notice) -> u8 {
    match what {
        Notice::Frame => 0x66,
        Notice::Card => 0x63,
        Notice::Rows => 0x72,
        Notice::Closed => 0x73,
    }
}

/// The byte that carries a notice: `f`, `c`, `r` or `s`.
pub fn tell(what: Notice) -> (b: u8)
    ensures
        b == byte_of(what),
{
    match what {
        Notice::Frame => 0x66,
        Notice::Card => 0x63,
        Notice::Rows => 0x72,
        Notice::Closed => 0x73,
    }
}

/// What one byte adds to what has been heard; a byte nobody here writes adds
/// nothing.
pub open spec fn heard_byte(w: Woken, b: u8) -> Woken {
    if b == 0x66 {
        Woken { frame: FrameReceived::Yes, ..w }
    } else if b == 0x63 {
        Woken { card: FrameReceived::Yes, ..w }
    } else if b == 0x72 {
        Woken { rows: FrameReceived::Yes, ..w }
    } else {
        w
    }
}

/// What a run of bytes adds to what has been heard.
pub open spec fn heard_all(w: Woken, bytes: Seq<u8>) -> Woken
    decreases bytes.len(),
{
    if bytes.len() == 0 {
        w
    } else {
        heard_byte(heard_all(w, bytes.drop_last()), bytes.last())
    }
}

/// What has been heard once the bytes read from the socket are added to it.
pub fn woken(heard: Woken, bytes: &[u8]) -> (r: Woken)
    ensures
        r == heard_all(heard, bytes@),
{
    let mut w = heard;
    let mut i: usize = 0;
    while i < bytes.len()
        invariant
            i <= bytes.len(),
            w == heard_all(heard, bytes@.take(i as int)),
        decreases bytes.len() - i,
    {
        let b = bytes[i];
        assert(bytes@.take(i + 1).drop_last() =~= bytes@.take(i as int));
        if b == 0x66 {
            w = Woken { frame: FrameReceived::Yes, ..w };
        } else if b == 0x63 {
            w = Woken { card: FrameReceived::Yes, ..w };
        } else if b == 0x72 {
            w = Woken { rows: FrameReceived::Yes, ..w };
        }
        i += 1;
    }
    assert(bytes@.take(bytes.len() as int) =~= bytes@);
    w
}

/// Every notice told is heard: a notice written as its byte and read back
/// marks what it is about, and the card being shut marks nothing.
pub proof fn lemma_a_notice_told_is_heard(w: Woken, what: Notice)
    ensures
        heard_all(w, seq![byte_of(what)]) == (match what {
            Notice::Frame => Woken { frame: FrameReceived::Yes, ..w },
            Notice::Card => Woken { card: FrameReceived::Yes, ..w },
            Notice::Rows => Woken { rows: FrameReceived::Yes, ..w },
            Notice::Closed => w,
        }),
{
    let s = seq![byte_of(what)];
    assert(s.drop_last() =~= Seq::<u8>::empty());
    assert(s.last() == byte_of(what));
    assert(heard_all(w, s) == heard_byte(heard_all(w, s.drop_last()), s.last()));
    assert(heard_all(w, Seq::<u8>::empty()) == w);
}

/// Whether `what` is among the notices `told`.
pub open spec fn received(told: Seq<Notice>, what: Notice) -> FrameReceived {
    if told.contains(what) {
        FrameReceived::Yes
    } else {
        FrameReceived::No
    }
}

/// What a run of notices told marks: each kind told, and nothing for the
/// card being shut.
pub open spec fn marked(told: Seq<Notice>) -> Woken {
    Woken {
        frame: received(told, Notice::Frame),
        card: received(told, Notice::Card),
        rows: received(told, Notice::Rows),
    }
}

/// The notices told are exactly the notices heard: the bytes written for a
/// run of notices, read back by a loop that had heard nothing, mark each
/// kind told and no other.
pub proof fn lemma_the_notices_told_are_the_notices_heard(told: Seq<Notice>)
    ensures
        heard_all(nothing_heard(), told.map_values(|n: Notice| byte_of(n))) == marked(told),
    decreases told.len(),
{
    let bytes = told.map_values(|n: Notice| byte_of(n));
    if told.len() == 0 {
        assert(marked(told) == nothing_heard()) by {
            assert(!told.contains(Notice::Frame));
            assert(!told.contains(Notice::Card));
            assert(!told.contains(Notice::Rows));
        }
    } else {
        let before = told.drop_last();
        lemma_the_notices_told_are_the_notices_heard(before);
        assert(bytes.drop_last() =~= before.map_values(|n: Notice| byte_of(n)));
        assert(bytes.last() == byte_of(told.last()));
        assert(told =~= before.push(told.last()));
        assert forall|what: Notice| #[trigger] told.contains(what) == (before.contains(what)
            || told.last() == what) by {
            if told.contains(what) {
                let k = choose|k: int| 0 <= k < told.len() && told[k] == what;
                if k < told.len() - 1 {
                    assert(before[k] == what);
                }
            }
            if before.contains(what) {
                let k = choose|k: int| 0 <= k < before.len() && before[k] == what;
                assert(told[k] == what);
            }
            if told.last() == what {
                assert(told[told.len() - 1] == what);
            }
        }
        assert(told.contains(Notice::Frame) == (before.contains(Notice::Frame) || told.last() == Notice::Frame));
        assert(told.contains(Notice::Card) == (before.contains(Notice::Card) || told.last() == Notice::Card));
        assert(told.contains(Notice::Rows) == (before.contains(Notice::Rows) || told.last() == Notice::Rows));
    }
}

/// The room a picture is shown in, in pixels.
#[derive(Debug, Clone, Copy, PartialEq, Eq, Structural)]
pub struct Room {
    pub wide: u32,
    pub tall: u32,
}

/// How far the picture being looked at has got: still being decoded, its
/// pixels, or nothing to show.
#[derive(Debug, Clone, PartialEq, Eq)]
pub enum Held<P> {
    Decoding,
    Decoded(P),
    Failed,
}

/// The picture being looked at: the file, the room it is shown in, how far
/// it has got, and the room it was last decoded for.
#[derive(Debug, Clone, PartialEq, Eq)]
pub struct Looked<P> {
    pub of: String,
    pub room: Room,
    pub held: Held<P>,
    pub asked: Room,
}

/// The picture being looked at, with its file as characters.
pub struct Seen<P> {
    pub of: Seq<char>,
    pub room: Room,
    pub held: Held<P>,
    pub asked: Room,
}

impl<P> View for Looked<P> {
    type V = Seen<P>;

    open spec fn view(&self) -> Seen<P> {
        Seen { of: self.of@, room: self.room, held: self.held, asked: self.asked }
    }
}

/// The one picture the card is looking at, if any: what the loop that draws
/// and the decoders working for it share.
pub struct Looking<P> {
    pub looked: Option<Looked<P>>,
}

impl<P> View for Looking<P> {
    type V = Option<Seen<P>>;

    open spec fn view(&self) -> Option<Seen<P>> {
        match self.looked {
            Some(l) => Some(l@),
            None => None,
        }
    }
}

/// What asking for the picture at a file gives: its pixels, held by the
/// picture being looked at; nothing yet, while it is decoded or when it
/// could not be; or nothing yet, and a decoding of it to be started.
#[derive(Debug, Clone, Copy, PartialEq, Eq, Structural)]
pub enum Current {
    Ready,
    Waiting,
    Decode,
}

/// The parts of a path between its separators that name something: none
/// that is empty, where separators stand together or at the end, and none
/// that is a lone dot.
pub open spec fn named_parts(parts: Seq<Seq<char>>) -> Seq<Seq<char>> {
    parts.filter(|part: Seq<char>| part.len() > 0 && part != seq!['.'])
}

/// What a path is made of, as `Path::components` gives it on this system:
/// whether it starts at the root, whether it starts at a dot that is not
/// the root's, and the parts after that which name something.
pub struct PathParts {
    pub root: bool,
    pub here: bool,
    pub parts: Seq<Seq<char>>,
}

/// What the path `s` is made of.
pub open spec fn path_parts(s: Seq<char>) -> PathParts {
    let root = s.len() > 0 && s[0] == '/';
    let split = text::split(s, '/');
    PathParts { root, here: !root && split[0] == seq!['.'], parts: named_parts(split) }
}

/// Whether two paths name one file, as two `Path`s are equal: they are
/// made of the same parts.
pub open spec fn same_path(a: Seq<char>, b: Seq<char>) -> bool {
    path_parts(a) == path_parts(b)
}

/// The parts of `parts` that name something.
fn naming_parts(parts: &Vec<Vec<char>>) -> (r: Vec<Vec<char>>)
    ensures
        r@.map_values(|v: Vec<char>| v@) == named_parts(parts@.map_values(|v: Vec<char>| v@)),
{
    let ghost all = parts@.map_values(|v: Vec<char>| v@);
    let mut kept: Vec<Vec<char>> = Vec::new();
    let mut i: usize = 0;
    while i < parts.len()
        invariant
            i <= parts@.len(),
            all == parts@.map_values(|v: Vec<char>| v@),
            kept@.map_values(|v: Vec<char>| v@) == named_parts(all.take(i as int)),
        decreases parts.len() - i,
    {
        let ghost before = all.take(i as int);
        assert(all.take(i + 1) =~= before.push(all[i as int]));
        proof {
            reveal(Seq::filter);
            assert(before.push(all[i as int]).drop_last() =~= before);
        }
        let part = &parts[i];
        let dot = part.len() == 1 && part[0] == '.';
        assert(dot == (part@ == seq!['.'])) by {
            if part@.len() == 1 && part@[0] == '.' {
                assert(part@ =~= seq!['.']);
            }
        }
        if part.len() > 0 && !dot {
            let ghost had = kept@.map_values(|v: Vec<char>| v@);
            kept.push(part.clone());
            assert(kept@.map_values(|v: Vec<char>| v@) =~= had.push(all[i as int]));
        }
        i += 1;
    }
    assert(all.take(i as int) =~= all);
    kept
}

/// Whether two runs of parts are the same.
fn same_parts(a: &Vec<Vec<char>>, b: &Vec<Vec<char>>) -> (r: bool)
    ensures
        r == (a@.map_values(|v: Vec<char>| v@) == b@.map_values(|v: Vec<char>| v@)),
{
    let ghost x = a@.map_values(|v: Vec<char>| v@);
    let ghost y = b@.map_values(|v: Vec<char>| v@);
    if a.len() != b.len() {
        assert(x.len() != y.len());
        return false;
    }
    let mut i: usize = 0;
    while i < a.len()
        invariant
            i <= a@.len(),
            a@.len() == b@.len(),
            x == a@.map_values(|v: Vec<char>| v@),
            y == b@.map_values(|v: Vec<char>| v@),
            forall|k: int| 0 <= k < i ==> x[k] == y[k],
        decreases a.len() - i,
    {
        if !text::same(&a[i], &b[i]) {
            assert(x[i as int] != y[i as int]);
            return false;
        }
        i += 1;
    }
    assert(x =~= y);
    true
}

/// What the path `s` is made of.
fn parts_of(s: &str) -> (r: (bool, bool, Vec<Vec<char>>))
    ensures
        r.0 == path_parts(s@).root,
        r.1 == path_parts(s@).here,
        r.2@.map_values(|v: Vec<char>| v@) == path_parts(s@).parts,
{
    let letters = text::letters(s);
    let root = letters.len() > 0 && letters[0] == '/';
    let split = text::split_on(&letters, '/');
    proof {
        text::lemma_split_len(s@, '/');
    }
    let first = &split[0];
    let here = !root && first.len() == 1 && first[0] == '.';
    assert(here == (!root && text::split(s@, '/')[0] == seq!['.'])) by {
        assert(split@.map_values(|v: Vec<char>| v@)[0] == first@);
        if first@.len() == 1 && first@[0] == '.' {
            assert(first@ =~= seq!['.']);
        }
    }
    (root, here, naming_parts(&split))
}

/// Whether the paths `a` and `b` name one file.
fn same_file(a: &str, b: &str) -> (r: bool)
    ensures
        r == same_path(a@, b@),
{
    let x = parts_of(a);
    let y = parts_of(b);
    x.0 == y.0 && x.1 == y.1 && same_parts(&x.2, &y.2)
}

/// Whether the picture being looked at is the one at `of`.
pub open spec fn is_of<P>(s: Option<Seen<P>>, of: Seq<char>) -> bool {
    s matches Some(l) && same_path(l.of, of)
}

/// A picture at `of`, shown in `room`, that has just started being decoded.
pub open spec fn fresh<P>(of: Seq<char>, room: Room) -> Seen<P> {
    Seen { of, room, held: Held::Decoding, asked: room }
}

/// Asking for the picture at `of`, shown in `room`: the one being looked at
/// is shown in `room` from now on and gives what it holds; any other is
/// forgotten, and `of` starts being decoded for `room`.
pub open spec fn current_of<P>(s: Option<Seen<P>>, of: Seq<char>, room: Room) -> (
    Option<Seen<P>>,
    Current,
) {
    match s {
        Some(l) => if same_path(l.of, of) {
            (
                Some(Seen { room, ..l }),
                if l.held is Decoded {
                    Current::Ready
                } else {
                    Current::Waiting
                },
            )
        } else {
            (Some(fresh(of, room)), Current::Decode)
        },
        None => (Some(fresh(of, room)), Current::Decode),
    }
}

/// A decoding of `at` landing with `read`: it is taken only while the
/// picture being looked at is `at` and still being decoded, and then the
/// card is told.
pub open spec fn landed_of<P>(s: Option<Seen<P>>, at: Seq<char>, read: Held<P>) -> (
    Option<Seen<P>>,
    bool,
) {
    match s {
        Some(l) => if same_path(l.of, at) && l.held is Decoding {
            (Some(Seen { held: read, ..l }), true)
        } else {
            (s, false)
        },
        None => (s, false),
    }
}

/// Whether `within` is more room than `asked` in either direction.
pub open spec fn larger_than(within: Room, asked: Room) -> bool {
    within.wide > asked.wide || within.tall > asked.tall
}

/// A sharper picture of `of` wanted for `within`: decoded again only when
/// it is the picture being looked at, already decoded, and `within` is
/// larger than what it was decoded for; it is then asked for at `within`.
pub open spec fn sharpened_of<P>(s: Option<Seen<P>>, of: Seq<char>, within: Room) -> (
    Option<Seen<P>>,
    bool,
) {
    match s {
        Some(l) => if same_path(l.of, of) && l.held is Decoded && larger_than(within, l.asked) {
            (Some(Seen { asked: within, ..l }), true)
        } else {
            (s, false)
        },
        None => (s, false),
    }
}

/// A sharper decoding of `at` for `within` landing with `read`: taken only
/// while the picture being looked at is `at` and was last asked for at
/// `within`, and then the card is told.
pub open spec fn sharper_of<P>(s: Option<Seen<P>>, at: Seq<char>, within: Room, read: P) -> (
    Option<Seen<P>>,
    bool,
) {
    match s {
        Some(l) => if same_path(l.of, at) && l.asked == within {
            (Some(Seen { held: Held::Decoded(read), ..l }), true)
        } else {
            (s, false)
        },
        None => (s, false),
    }
}

/// The room the picture at `of` is shown in, when it is the one looked at.
pub open spec fn room_of<P>(s: Option<Seen<P>>, of: Seq<char>) -> Option<Room> {
    match s {
        Some(l) => if same_path(l.of, of) {
            Some(l.room)
        } else {
            None
        },
        None => None,
    }
}

/// A frame of the film at `of` put with `pixels`: taken, whatever was held,
/// only while the film is the one being looked at, as decoded for the room
/// it is shown in, and then the loop is told a frame came.
pub open spec fn put_of<P>(s: Option<Seen<P>>, of: Seq<char>, pixels: P) -> (
    Option<Seen<P>>,
    bool,
) {
    match s {
        Some(l) => if same_path(l.of, of) {
            (Some(Seen { of, room: l.room, held: Held::Decoded(pixels), asked: l.room }), true)
        } else {
            (s, false)
        },
        None => (s, false),
    }
}

impl<P> Looking<P> {
    /// Nothing looked at.
    pub fn new() -> (r: Looking<P>)
        ensures
            r@ is None,
    {
        Looking { looked: None }
    }

    /// Whether the picture being looked at is the one at `of`.
    fn holds(&self, of: &str) -> (r: bool)
        ensures
            r == is_of(self@, of@),
    {
        match &self.looked {
            Some(l) => same_file(l.of.as_str(), of),
            None => false,
        }
    }

    /// Asks for the picture at `of`, shown in `room`.
    pub fn current(&mut self, of: &str, room: Room) -> (r: Current)
        ensures
            (final(self)@, r) == current_of(old(self)@, of@, room),
    {
        if self.holds(of) {
            let taken = self.looked.take();
            match taken {
                Some(l) => {
                    let ready = match &l.held {
                        Held::Decoded(_) => true,
                        _ => false,
                    };
                    self.looked = Some(Looked { room, ..l });
                    if ready {
                        Current::Ready
                    } else {
                        Current::Waiting
                    }
                },
                None => Current::Waiting,
            }
        } else {
            self.looked = Some(Looked { of: of.to_owned(), room, held: Held::Decoding, asked: room });
            Current::Decode
        }
    }

    /// Takes a decoding of `at` that has landed, and says whether the card
    /// is to be told.
    pub fn landed(&mut self, at: &str, read: Held<P>) -> (told: bool)
        ensures
            (final(self)@, told) == landed_of(old(self)@, at@, read),
    {
        if !self.holds(at) {
            return false;
        }
        let taken = self.looked.take();
        match taken {
            Some(l) => match &l.held {
                Held::Decoding => {
                    self.looked = Some(Looked { held: read, ..l });
                    true
                },
                _ => {
                    self.looked = Some(l);
                    false
                },
            },
            None => false,
        }
    }

    /// Asks for the picture at `of` again at `within`, and says whether it
    /// is to be decoded again for it.
    pub fn sharpened(&mut self, of: &str, within: Room) -> (decode: bool)
        ensures
            (final(self)@, decode) == sharpened_of(old(self)@, of@, within),
    {
        if !self.holds(of) {
            return false;
        }
        let taken = self.looked.take();
        match taken {
            Some(l) => {
                let again = match &l.held {
                    Held::Decoded(_) => within.wide > l.asked.wide || within.tall > l.asked.tall,
                    _ => false,
                };
                if again {
                    self.looked = Some(Looked { asked: within, ..l });
                } else {
                    self.looked = Some(l);
                }
                again
            },
            None => false,
        }
    }

    /// Takes a sharper decoding of `at` for `within` that has landed, and
    /// says whether the card is to be told.
    pub fn sharper(&mut self, at: &str, within: Room, read: P) -> (told: bool)
        ensures
            (final(self)@, told) == sharper_of(old(self)@, at@, within, read),
    {
        if !self.holds(at) {
            return false;
        }
        let taken = self.looked.take();
        match taken {
            Some(l) => if l.asked == within {
                self.looked = Some(Looked { held: Held::Decoded(read), ..l });
                true
            } else {
                self.looked = Some(l);
                false
            },
            None => false,
        }
    }

    /// The room the picture at `of` is shown in, when it is the one looked
    /// at.
    pub fn room(&self, of: &str) -> (r: Option<Room>)
        ensures
            r == room_of(self@, of@),
    {
        match &self.looked {
            Some(l) => if self.holds(of) {
                Some(l.room)
            } else {
                None
            },
            None => None,
        }
    }

    /// Takes a frame of the film at `of`, and says whether the loop is to be
    /// told a frame came.
    pub fn put(&mut self, of: &str, pixels: P) -> (told: bool)
        ensures
            (final(self)@, told) == put_of(old(self)@, of@, pixels),
    {
        if !self.holds(of) {
            return false;
        }
        let taken = self.looked.take();
        match taken {
            Some(l) => {
                let room = l.room;
                self.looked = Some(Looked { of: of.to_owned(), room, held: Held::Decoded(pixels), asked: room });
                true
            },
            None => false,
        }
    }
}

/// The first ask for a picture is answered at once, with nothing yet: it
/// starts a decoding for the room asked for, and that room is the one the
/// picture is shown in.
pub proof fn lemma_the_first_ask_starts_a_decoding<P>(s: Option<Seen<P>>, of: Seq<char>, room: Room)
    requires
        !is_of(s, of),
    ensures
        current_of(s, of, room) == (Some(fresh::<P>(of, room)), Current::Decode),
        room_of(current_of(s, of, room).0, of) == Some(room),
{
}

/// What a decoding lands with is held, the card is told, and the next ask
/// hands it out.
pub proof fn lemma_what_was_decoded_is_handed_out<P>(of: Seq<char>, room: Room, pixels: P)
    ensures
        landed_of(Some(fresh::<P>(of, room)), of, Held::Decoded(pixels)).1,
        landed_of(Some(fresh::<P>(of, room)), of, Held::Decoded(pixels)).0 == Some(
            Seen { held: Held::Decoded(pixels), ..fresh::<P>(of, room) },
        ),
        current_of(landed_of(Some(fresh::<P>(of, room)), of, Held::Decoded(pixels)).0, of, room).1
            == Current::Ready,
{
}

/// A frame put for the film being looked at is held and the loop hears of
/// it, and the next ask hands it out.
pub proof fn lemma_a_frame_put_is_held_and_heard<P>(s: Option<Seen<P>>, of: Seq<char>, pixels: P, room: Room)
    requires
        is_of(s, of),
    ensures
        put_of(s, of, pixels).1,
        put_of(s, of, pixels).0 matches Some(l) && l.held == Held::Decoded(pixels),
        current_of(put_of(s, of, pixels).0, of, room).1 == Current::Ready,
{
}

/// A late still does not cover a frame: once a frame is put, a decoding
/// landing for the same film changes nothing and tells nobody.
pub proof fn lemma_a_late_still_does_not_cover_a_frame<P>(s: Option<Seen<P>>, of: Seq<char>, pixels: P, read: Held<P>)
    requires
        is_of(s, of),
    ensures
        landed_of(put_of(s, of, pixels).0, of, read) == (put_of(s, of, pixels).0, false),
{
}

/// A frame, or a decoding, of a picture nobody is looking at is dropped:
/// nothing changes and nobody is told.
pub proof fn lemma_what_nobody_looks_at_is_dropped<P>(
    s: Option<Seen<P>>,
    of: Seq<char>,
    pixels: P,
    read: Held<P>,
    within: Room,
)
    requires
        !is_of(s, of),
    ensures
        put_of(s, of, pixels) == (s, false),
        landed_of(s, of, read) == (s, false),
        sharper_of(s, of, within, pixels) == (s, false),
        sharpened_of(s, of, within) == (s, false),
        room_of(s, of) is None,
{
}

/// A sharper decoding asked for is taken when it lands for the room it was
/// asked for, and one for any other room is dropped.
pub proof fn lemma_only_the_sharper_picture_asked_for_is_taken<P>(
    s: Option<Seen<P>>,
    of: Seq<char>,
    within: Room,
    other: Room,
    pixels: P,
)
    requires
        sharpened_of(s, of, within).1,
        other != within,
    ensures
        sharper_of(sharpened_of(s, of, within).0, of, within, pixels).1,
        sharper_of(sharpened_of(s, of, within).0, of, other, pixels) == (
            sharpened_of(s, of, within).0,
            false,
        ),
{
}

} // verus!
