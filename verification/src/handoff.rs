//! Asking the program that holds the panels to put one up.
//!
//! One program keeps the toolkit up and draws whichever panel is asked for,
//! and this is how it is asked: one line, words between single spaces, the
//! first of them `open`. A word is a program's argument and may hold anything
//! at all but a nul, so a backslash, a space and a line break inside one are
//! written as two characters each, a word that says nothing is written as a
//! dash, and a word that is a dash is written as a backslash and a dash.
//!
//! What goes over the socket, and what is done while waiting on it, belongs to
//! the program around this; what is spelled, and what is read back, is here.

use vstd::prelude::*;

use crate::decimal::{self, digits, parse_u64};
use crate::text::{self, join, split, trim};

verus! {

/// The socket the host listens on, under the session's own runtime directory.
pub const SOCKET: &'static str = "panels.sock";

/// The first word of a request.
pub const OPEN: &'static str = "open";

/// What the asking program says when it is asked to stop.
pub const CLOSE: &'static str = "close";

/// What the host says when the panel is on the screen.
pub const DRAWN: &'static str = "drawn";

/// What the host says when the panel has gone.
pub const GONE: &'static str = "gone";

/// Where the socket is, given the session's own runtime directory of ours,
/// when there is one.
pub fn where_(ours: Option<&str>) -> (r: Option<String>)
    ensures
        match ours {
            Some(o) => r matches Some(p) && p@ == crate::picker::joined(o@, SOCKET@),
            None => r is None,
        },
{
    match ours {
        Some(o) => Some(
            text::text(&crate::picker::join_path(&text::letters(o), &text::letters(SOCKET))),
        ),
        None => None,
    }
}

/// A panel the program that holds them is asked to put up.
#[derive(Debug, Clone, PartialEq, Eq)]
pub struct Request {
    pub who: String,
    pub from: String,
    pub pressed: Option<String>,
    /// How long the asking program took to start, in nanoseconds.
    pub exec_nanos: u64,
    pub tells: Option<String>,
    pub arguments: Vec<String>,
}

/// What a request says, as characters.
pub struct Asking {
    pub who: Seq<char>,
    pub from: Seq<char>,
    pub pressed: Option<Seq<char>>,
    pub exec_nanos: u64,
    pub tells: Option<Seq<char>>,
    pub arguments: Seq<Seq<char>>,
}

/// The characters of each string of `v`.
pub open spec fn strings(v: Seq<String>) -> Seq<Seq<char>> {
    v.map_values(|s: String| s@)
}

/// The characters of a string that may not be there.
pub open spec fn maybe(o: Option<String>) -> Option<Seq<char>> {
    match o {
        Some(s) => Some(s@),
        None => None,
    }
}

impl View for Request {
    type V = Asking;

    open spec fn view(&self) -> Asking {
        Asking {
            who: self.who@,
            from: self.from@,
            pressed: maybe(self.pressed),
            exec_nanos: self.exec_nanos,
            tells: maybe(self.tells),
            arguments: strings(self.arguments@),
        }
    }
}

/// Who drew the panel in the end.
#[derive(Debug, Clone, Copy, PartialEq, Eq, Structural)]
pub enum DrawnBy {
    ByTheHost,
    Here,
}

/// The word that stands for a word saying nothing.
pub open spec fn nothing() -> Seq<char> {
    seq!['-']
}

/// How a word that is a lone dash is written.
pub open spec fn dashed() -> Seq<char> {
    seq!['\\', '-']
}

/// The first word of a request, as characters.
pub open spec fn open_word() -> Seq<char> {
    seq!['o', 'p', 'e', 'n']
}

/// How one character of a word is written.
pub open spec fn escape_char(c: char) -> Seq<char> {
    if c == '\\' {
        seq!['\\', '\\']
    } else if c == ' ' {
        seq!['\\', 's']
    } else if c == '\n' {
        seq!['\\', 'n']
    } else {
        seq![c]
    }
}

/// How the characters of a word are written, one after another.
pub open spec fn escape(w: Seq<char>) -> Seq<char>
    decreases w.len(),
{
    if w.len() == 0 {
        Seq::empty()
    } else {
        escape_char(w[0]) + escape(w.drop_first())
    }
}

/// How a word is written: its characters escaped; a dash when it has none,
/// and a backslash before the dash when it is a lone dash.
pub open spec fn escaped_word(w: Seq<char>) -> Seq<char> {
    if w.len() == 0 {
        nothing()
    } else if w == nothing() {
        dashed()
    } else {
        escape(w)
    }
}

/// What the character after a backslash stands for.
pub open spec fn unescape_char(c: char) -> char {
    if c == '\\' {
        '\\'
    } else if c == 's' {
        ' '
    } else if c == 'n' {
        '\n'
    } else {
        c
    }
}

/// The characters a written word stands for; a backslash at the very end
/// stands for nothing.
pub open spec fn unescape(s: Seq<char>) -> Seq<char>
    decreases s.len(),
{
    if s.len() == 0 {
        Seq::empty()
    } else if s[0] == '\\' {
        if s.len() == 1 {
            Seq::empty()
        } else {
            seq![unescape_char(s[1])] + unescape(s.skip(2))
        }
    } else {
        seq![s[0]] + unescape(s.drop_first())
    }
}

/// The word a written word stands for: a dash is the empty word.
pub open spec fn plain_word(s: Seq<char>) -> Seq<char> {
    if s == nothing() {
        Seq::empty()
    } else {
        unescape(s)
    }
}

/// The word that stands for a stamp that may not be there: no stamp is the
/// word that says nothing.
pub open spec fn stamped(o: Option<Seq<char>>) -> Seq<char> {
    match o {
        Some(s) => s,
        None => Seq::empty(),
    }
}

/// A stamp read back: nothing is no stamp.
pub open spec fn unstamped(s: Seq<char>) -> Option<Seq<char>> {
    if s.len() == 0 {
        None
    } else {
        Some(s)
    }
}

/// The words of a request, in the order they are spelled.
pub open spec fn words_of(q: Asking) -> Seq<Seq<char>> {
    seq![
        open_word(),
        escaped_word(q.who),
        escaped_word(q.from),
        escaped_word(stamped(q.pressed)),
        digits(q.exec_nanos as nat),
        escaped_word(stamped(q.tells)),
    ] + q.arguments.map_values(|w: Seq<char>| escaped_word(w))
}

/// A request spelled as the line that carries it.
pub open spec fn spelled_line(q: Asking) -> Seq<char> {
    join(words_of(q), ' ')
}

/// What the word that says how long the start took is read as: a number, or
/// nought.
pub open spec fn took_of(s: Seq<char>) -> u64 {
    match parse_u64(trim(s)) {
        Some(n) => n,
        None => 0,
    }
}

/// What a line is read as: a request, when it is one.
pub open spec fn read_line(line: Seq<char>) -> Option<Asking> {
    let w = split(line, ' ');
    if w[0] == open_word() && w.len() >= 6 && plain_word(w[1]).len() > 0 {
        Some(
            Asking {
                who: plain_word(w[1]),
                from: plain_word(w[2]),
                pressed: unstamped(plain_word(w[3])),
                exec_nanos: took_of(w[4]),
                tells: unstamped(plain_word(w[5])),
                arguments: w.skip(6).map_values(|s: Seq<char>| plain_word(s)),
            },
        )
    } else {
        None
    }
}

/// Whether a stamp comes back as itself: any stamp that says something, and
/// no stamp.
pub open spec fn stamp_survives(o: Option<Seq<char>>) -> bool {
    match o {
        Some(s) => s.len() > 0,
        None => true,
    }
}

/// Whether a request comes back from being spelled as itself: it names who
/// asked, and each stamp it has says something.
pub open spec fn carried(q: Asking) -> bool {
    &&& q.who.len() > 0
    &&& stamp_survives(q.pressed)
    &&& stamp_survives(q.tells)
}

/// A written character is never a space or a line break.
proof fn lemma_escape_clean(w: Seq<char>)
    ensures
        !escape(w).contains(' '),
        !escape(w).contains('\n'),
        w.len() > 0 ==> escape(w).len() > 0,
    decreases w.len(),
{
    if w.len() > 0 {
        lemma_escape_clean(w.drop_first());
        let e = escape(w);
        let head = escape_char(w[0]);
        let rest = escape(w.drop_first());
        assert(e == head + rest);
        assert forall|k: int| 0 <= k < e.len() implies e[k] != ' ' && e[k] != '\n' by {
            if k < head.len() {
                assert(e[k] == head[k]);
            } else {
                assert(e[k] == rest[k - head.len()]);
            }
        }
    }
}

/// A written word is never empty, and holds no space or line break.
pub proof fn lemma_escaped_clean(w: Seq<char>)
    ensures
        !escaped_word(w).contains(' '),
        !escaped_word(w).contains('\n'),
        escaped_word(w).len() > 0,
{
    lemma_escape_clean(w);
    if w == nothing() {
        assert(!dashed().contains(' ')) by {
            if dashed().contains(' ') {
                let k = choose|k: int| 0 <= k < dashed().len() && dashed()[k] == ' ';
                assert(k == 0 || k == 1);
            }
        }
        assert(!dashed().contains('\n')) by {
            if dashed().contains('\n') {
                let k = choose|k: int| 0 <= k < dashed().len() && dashed()[k] == '\n';
                assert(k == 0 || k == 1);
            }
        }
    }
    if w.len() == 0 {
        assert(nothing()[0] == '-');
        assert(!nothing().contains(' ')) by {
            if nothing().contains(' ') {
                let k = choose|k: int| 0 <= k < nothing().len() && nothing()[k] == ' ';
                assert(k == 0);
            }
        }
        assert(!nothing().contains('\n')) by {
            if nothing().contains('\n') {
                let k = choose|k: int| 0 <= k < nothing().len() && nothing()[k] == '\n';
                assert(k == 0);
            }
        }
    }
}

/// Reading back what was written gives the characters written.
pub proof fn lemma_unescape_escape(w: Seq<char>)
    ensures
        unescape(escape(w)) == w,
    decreases w.len(),
{
    if w.len() == 0 {
        assert(escape(w) =~= Seq::<char>::empty());
    } else {
        lemma_unescape_escape(w.drop_first());
        let c = w[0];
        let rest = escape(w.drop_first());
        let s = escape(w);
        assert(s == escape_char(c) + rest);
        if c == '\\' || c == ' ' || c == '\n' {
            assert(s[0] == '\\');
            assert(s.skip(2) =~= rest);
            assert(unescape_char(s[1]) == c);
        } else {
            assert(s[0] == c);
            assert(s.drop_first() =~= rest);
        }
        assert(unescape(s) =~= w);
    }
}

/// A word written out is the dash only when it was the dash.
proof fn lemma_escape_dash(w: Seq<char>)
    requires
        w.len() > 0,
        escape(w) == nothing(),
    ensures
        w == nothing(),
{
    lemma_escape_clean(w.drop_first());
    let head = escape_char(w[0]);
    assert(escape(w) == head + escape(w.drop_first()));
    if w.len() > 1 {
        assert(escape(w.drop_first()).len() > 0);
        assert(head.len() >= 1);
    }
    assert(w.len() == 1);
    assert(head.len() == 1);
    assert(head[0] == w[0]);
    assert(w =~= nothing());
}

/// Every word comes back from being written as itself: a word that says
/// nothing, a lone dash, and any other word.
pub proof fn lemma_plain_escaped(w: Seq<char>)
    ensures
        plain_word(escaped_word(w)) == w,
{
    if w.len() == 0 {
        assert(w =~= Seq::<char>::empty());
    } else if w == nothing() {
        let d = dashed();
        assert(d != nothing());
        assert(d.skip(2) =~= Seq::<char>::empty());
        assert(unescape(d.skip(2)) =~= Seq::<char>::empty());
        assert(unescape(d) == seq![unescape_char(d[1])] + unescape(d.skip(2)));
        assert(unescape(d) =~= nothing());
    } else {
        if escape(w) == nothing() {
            lemma_escape_dash(w);
        }
        lemma_unescape_escape(w);
    }
}

/// Nothing in a number written out is white space.
pub proof fn lemma_trim_digits(n: nat)
    ensures
        trim(digits(n)) == digits(n),
{
    decimal::lemma_digits(n);
    let d = digits(n);
    assert(!crate::text::is_white_space(d[0]));
    assert(crate::text::trim_start(d) == d);
    assert(!crate::text::is_white_space(d.last())) by {
        assert(decimal::is_digit(d[d.len() - 1]));
    }
}

/// A number written out holds no space.
pub proof fn lemma_digits_clean(n: nat)
    ensures
        !digits(n).contains(' '),
{
    decimal::lemma_digits(n);
    if digits(n).contains(' ') {
        let k = choose|k: int| 0 <= k < digits(n).len() && digits(n)[k] == ' ';
        assert(decimal::is_digit(digits(n)[k]));
    }
}

/// What the host is asked for arrives as it was asked: a request spelled and
/// read back is the same request, whatever its arguments hold, whenever it
/// names who asked and each stamp it has says something (see `carried`).
pub proof fn lemma_read_spelled(q: Asking)
    requires
        carried(q),
    ensures
        read_line(spelled_line(q)) == Some(q),
{
    let w = words_of(q);
    let rest = q.arguments.map_values(|a: Seq<char>| escaped_word(a));
    assert(w.len() == 6 + q.arguments.len());
    lemma_escaped_clean(q.who);
    lemma_escaped_clean(q.from);
    lemma_escaped_clean(stamped(q.pressed));
    lemma_escaped_clean(stamped(q.tells));
    lemma_digits_clean(q.exec_nanos as nat);
    assert(!open_word().contains(' ')) by {
        if open_word().contains(' ') {
            let k = choose|k: int| 0 <= k < open_word().len() && open_word()[k] == ' ';
            assert(0 <= k < 4);
        }
    }
    assert(text::none_hold(w, ' ')) by {
        assert forall|i: int| 0 <= i < w.len() implies !(#[trigger] w[i]).contains(' ') by {
            if i >= 6 {
                assert(w[i] == rest[i - 6]);
                lemma_escaped_clean(q.arguments[i - 6]);
            }
        }
    }
    text::lemma_split_join(w, ' ');
    assert(split(spelled_line(q), ' ') == w);
    lemma_plain_escaped(q.who);
    lemma_plain_escaped(q.from);
    lemma_plain_escaped(stamped(q.pressed));
    lemma_plain_escaped(stamped(q.tells));
    lemma_trim_digits(q.exec_nanos as nat);
    decimal::lemma_parse_u64_digits(q.exec_nanos);
    let back = w.skip(6).map_values(|s: Seq<char>| plain_word(s));
    assert(back =~= q.arguments) by {
        assert forall|i: int| 0 <= i < q.arguments.len() implies back[i] == q.arguments[i] by {
            assert(w.skip(6)[i] == rest[i]);
            lemma_plain_escaped(q.arguments[i]);
        }
    }
    assert(unstamped(plain_word(escaped_word(stamped(q.pressed)))) == q.pressed);
    assert(unstamped(plain_word(escaped_word(stamped(q.tells)))) == q.tells);
}

/// The characters of `w` written out.
pub fn escaped(w: &Vec<char>) -> (s: Vec<char>)
    ensures
        s@ == escaped_word(w@),
{
    let mut s: Vec<char> = Vec::new();
    let mut i: usize = 0;
    assert(w@.skip(0) =~= w@);
    while i < w.len()
        invariant
            i <= w.len(),
            escape(w@) == s@ + escape(w@.skip(i as int)),
        decreases w.len() - i,
    {
        let c = w[i];
        assert(w@.skip(i as int).drop_first() =~= w@.skip(i + 1));
        assert(w@.skip(i as int)[0] == c);
        if c == '\\' {
            s.push('\\');
            s.push('\\');
        } else if c == ' ' {
            s.push('\\');
            s.push('s');
        } else if c == '\n' {
            s.push('\\');
            s.push('n');
        } else {
            s.push(c);
        }
        i += 1;
        assert(escape(w@) =~= s@ + escape(w@.skip(i as int)));
    }
    assert(w@.skip(i as int) =~= Seq::<char>::empty());
    assert(s@ =~= escape(w@));
    if s.len() == 0 {
        s.push('-');
        assert(w@.len() == 0) by {
            if w@.len() > 0 {
                lemma_escape_clean(w@);
            }
        }
        return s;
    }
    if s.len() == 1 && s[0] == '-' {
        assert(s@ =~= nothing());
        proof {
            lemma_escape_dash(w@);
        }
        let mut d: Vec<char> = Vec::new();
        d.push('\\');
        d.push('-');
        assert(d@ =~= dashed());
        return d;
    }
    assert(w@ != nothing()) by {
        if w@ == nothing() {
            assert(w@.drop_first() =~= Seq::<char>::empty());
            assert(escape(w@.drop_first()) =~= Seq::<char>::empty());
            assert(escape(w@) == escape_char('-') + escape(w@.drop_first()));
            assert(escape(w@) =~= nothing());
        }
    }
    s
}

/// The characters written out in `s` stand for.
pub fn plain(s: &Vec<char>) -> (w: Vec<char>)
    ensures
        w@ == plain_word(s@),
{
    if s.len() == 1 && s[0] == '-' {
        assert(s@ =~= nothing());
        return Vec::new();
    }
    let mut w: Vec<char> = Vec::new();
    let mut i: usize = 0;
    assert(s@.skip(0) =~= s@);
    while i < s.len()
        invariant
            i <= s.len(),
            unescape(s@) == w@ + unescape(s@.skip(i as int)),
        decreases s.len() - i,
    {
        let c = s[i];
        let ghost t = s@.skip(i as int);
        assert(t[0] == c);
        if c == '\\' {
            if i + 1 == s.len() {
                assert(t.len() == 1);
                i += 1;
                assert(unescape(t) =~= Seq::<char>::empty());
                assert(w@ + Seq::<char>::empty() =~= w@);
            } else {
                let d = s[i + 1];
                assert(t[1] == d);
                assert(t.skip(2) =~= s@.skip(i + 2));
                if d == '\\' {
                    w.push('\\');
                } else if d == 's' {
                    w.push(' ');
                } else if d == 'n' {
                    w.push('\n');
                } else {
                    w.push(d);
                }
                i += 2;
            }
        } else {
            assert(t.drop_first() =~= s@.skip(i + 1));
            w.push(c);
            i += 1;
        }
        assert(unescape(s@) =~= w@ + unescape(s@.skip(i as int)));
    }
    assert(s@.skip(i as int) =~= Seq::<char>::empty());
    assert(w@ =~= unescape(s@));
    w
}

/// The characters of a stamp that may not be there.
fn stamp_of(o: &Option<String>) -> (s: Vec<char>)
    ensures
        s@ == stamped(maybe(*o)),
{
    match o {
        Some(p) => text::letters(p.as_str()),
        None => Vec::new(),
    }
}

/// The first word of a request.
fn open_letters() -> (s: Vec<char>)
    ensures
        s@ == open_word(),
{
    let mut s = Vec::new();
    s.push('o');
    s.push('p');
    s.push('e');
    s.push('n');
    assert(s@ =~= open_word());
    s
}

/// The line that carries a request.
pub fn spelled(asked: &Request) -> (said: String)
    ensures
        said@ == spelled_line(asked@),
{
    let mut words: Vec<Vec<char>> = Vec::new();
    words.push(open_letters());
    words.push(escaped(&text::letters(asked.who.as_str())));
    words.push(escaped(&text::letters(asked.from.as_str())));
    words.push(escaped(&stamp_of(&asked.pressed)));
    words.push(decimal::written(asked.exec_nanos));
    words.push(escaped(&stamp_of(&asked.tells)));
    let ghost head = words@.map_values(|v: Vec<char>| v@);
    let ghost args = strings(asked.arguments@);
    let mut i: usize = 0;
    while i < asked.arguments.len()
        invariant
            i <= asked.arguments.len(),
            args == strings(asked.arguments@),
            words@.map_values(|v: Vec<char>| v@) == head + args.take(i as int).map_values(
                |w: Seq<char>| escaped_word(w),
            ),
        decreases asked.arguments.len() - i,
    {
        let ghost before = words@.map_values(|v: Vec<char>| v@);
        let w = escaped(&text::letters(asked.arguments[i].as_str()));
        assert(w@ == escaped_word(args[i as int]));
        words.push(w);
        assert(words@.map_values(|v: Vec<char>| v@) =~= before.push(escaped_word(args[i as int])));
        i += 1;
        assert(args.take(i as int).map_values(|w: Seq<char>| escaped_word(w)) =~= args.take(
            i - 1,
        ).map_values(|w: Seq<char>| escaped_word(w)).push(escaped_word(args[i - 1])));
        assert(words@.map_values(|v: Vec<char>| v@) =~= head + args.take(i as int).map_values(
            |w: Seq<char>| escaped_word(w),
        ));
    }
    assert(args.take(i as int) =~= args);
    assert(words@.map_values(|v: Vec<char>| v@) =~= words_of(asked@));
    text::text(&text::join_with(&words, ' '))
}

/// A stamp read back: nothing is no stamp.
fn unstamp(s: Vec<char>) -> (o: Option<String>)
    ensures
        maybe(o) == unstamped(s@),
{
    if s.len() == 0 {
        None
    } else {
        Some(text::text(&s))
    }
}

/// What the word that says how long the start took is read as.
fn took(s: &Vec<char>) -> (n: u64)
    ensures
        n == took_of(s@),
{
    match decimal::parsed_u64(&text::trimmed(s)) {
        Some(n) => n,
        None => 0,
    }
}

/// The request a line carries, when it carries one.
pub fn read(line: &str) -> (r: Option<Request>)
    ensures
        match r {
            Some(q) => read_line(line@) == Some(q@),
            None => read_line(line@) is None,
        },
{
    let words = text::split_on(&text::letters(line), ' ');
    let ghost w = words@.map_values(|v: Vec<char>| v@);
    proof {
        text::lemma_split_len(line@, ' ');
    }
    assert(w[0] == words[0]@);
    if !text::same(&words[0], &open_letters()) || words.len() < 6 {
        return None;
    }
    let who = plain(&words[1]);
    if who.len() == 0 {
        return None;
    }
    let from = plain(&words[2]);
    let pressed = plain(&words[3]);
    let exec = took(&words[4]);
    let tells = plain(&words[5]);
    let mut arguments: Vec<String> = Vec::new();
    let mut i: usize = 6;
    while i < words.len()
        invariant
            6 <= i <= words.len(),
            w == words@.map_values(|v: Vec<char>| v@),
            strings(arguments@) == w.subrange(6, i as int).map_values(
                |s: Seq<char>| plain_word(s),
            ),
        decreases words.len() - i,
    {
        let ghost before = strings(arguments@);
        let a = text::text(&plain(&words[i]));
        assert(a@ == plain_word(w[i as int]));
        arguments.push(a);
        assert(strings(arguments@) =~= before.push(plain_word(w[i as int])));
        i += 1;
        assert(strings(arguments@) =~= w.subrange(6, i as int).map_values(
            |s: Seq<char>| plain_word(s),
        ));
    }
    assert(w.subrange(6, i as int) =~= w.skip(6));
    let q = Request {
        who: text::text(&who),
        from: text::text(&from),
        pressed: unstamp(pressed),
        exec_nanos: exec,
        tells: unstamp(tells),
        arguments,
    };
    assert(q@.arguments =~= w.skip(6).map_values(|s: Seq<char>| plain_word(s)));
    Some(q)
}

/// What the host can say while a panel is up.
#[derive(Debug, Clone, Copy, PartialEq, Eq, Structural)]
pub enum Heard {
    Drawn,
    Gone,
    Unknown,
}

/// The word the host says when the panel is up, as characters.
pub open spec fn drawn_word() -> Seq<char> {
    seq!['d', 'r', 'a', 'w', 'n']
}

/// The word the host says when the panel has gone, as characters.
pub open spec fn gone_word() -> Seq<char> {
    seq!['g', 'o', 'n', 'e']
}

/// What a line from the host says, white space at its ends aside.
pub fn heard(line: &str) -> (h: Heard)
    ensures
        h == (if trim(line@) == drawn_word() {
            Heard::Drawn
        } else if trim(line@) == gone_word() {
            Heard::Gone
        } else {
            Heard::Unknown
        }),
{
    let said = text::trimmed(&text::letters(line));
    let mut drawn = Vec::new();
    drawn.push('d');
    drawn.push('r');
    drawn.push('a');
    drawn.push('w');
    drawn.push('n');
    assert(drawn@ =~= drawn_word());
    let mut gone = Vec::new();
    gone.push('g');
    gone.push('o');
    gone.push('n');
    gone.push('e');
    assert(gone@ =~= gone_word());
    if text::same(&said, &drawn) {
        Heard::Drawn
    } else if text::same(&said, &gone) {
        Heard::Gone
    } else {
        Heard::Unknown
    }
}

/// Who drew the panel, once the host has said `h` and the panel was already
/// drawn by it or not: the host drew it when it said so or said it had gone.
pub fn after_hearing(so_far: DrawnBy, h: Heard) -> (d: DrawnBy)
    ensures
        d == (match h {
            Heard::Drawn | Heard::Gone => DrawnBy::ByTheHost,
            Heard::Unknown => so_far,
        }),
{
    match h {
        Heard::Drawn | Heard::Gone => DrawnBy::ByTheHost,
        Heard::Unknown => so_far,
    }
}

} // verus!
