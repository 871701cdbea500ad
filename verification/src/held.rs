//! Asking the program that holds the panels to put one up, as a panel's own
//! program asks it.
//!
//! One program keeps the toolkit up and draws whichever panel is asked for,
//! and the panel's own program stays up while it does: it holds the screen's
//! lock, asks for the surface, and waits with nothing to draw until the
//! surface is gone. A panel with no host is merely slower: it draws in its
//! own process, as it did before there was a host.
//!
//! A request is one line, words between single spaces, the first of them
//! `open`: who is asked for, where it was asked from, the stamp of the press
//! behind it, how long the asking program took to start, and then its
//! arguments. A word is written as `handoff` writes one. The socket, and the
//! waiting on it, are the program's around this.

use vstd::prelude::*;

use crate::decimal::{self, digits};
use crate::handoff::{
    escaped, escaped_word, lemma_escaped_clean, lemma_plain_escaped, maybe, open_word, plain,
    plain_word, stamped, strings, took_of, unstamped,
};
use crate::text::{self, join, split};

verus! {

/// The socket the host listens on, under the session's runtime directory.
pub const SOCKET: &'static str = "panels.sock";

/// The first word of a request.
pub const OPEN: &'static str = "open";

/// What the asking program says when it is asked to stop.
pub const CLOSE: &'static str = "close";

/// What the host says when the panel is on the screen.
pub const DRAWN: &'static str = "drawn";

/// What the host says when the panel has gone.
pub const GONE: &'static str = "gone";

/// A panel asked for: who, from where, the stamp of the press behind it,
/// how long the asking program took to start in nanoseconds, and its
/// arguments.
#[derive(Debug, Clone, PartialEq, Eq)]
pub struct Asked {
    pub who: String,
    pub from: String,
    pub pressed: Option<String>,
    pub exec_nanos: u64,
    pub argv: Vec<String>,
}

/// A panel asked for, as characters.
pub struct AskedSeen {
    pub who: Seq<char>,
    pub from: Seq<char>,
    pub pressed: Option<Seq<char>>,
    pub exec_nanos: u64,
    pub argv: Seq<Seq<char>>,
}

impl View for Asked {
    type V = AskedSeen;

    open spec fn view(&self) -> AskedSeen {
        AskedSeen {
            who: self.who@,
            from: self.from@,
            pressed: maybe(self.pressed),
            exec_nanos: self.exec_nanos,
            argv: strings(self.argv@),
        }
    }
}

/// Who drew the panel in the end.
#[derive(Debug, Clone, Copy, PartialEq, Eq, Structural)]
pub enum Drawn {
    ByTheHost,
    Here,
}

/// Where the socket is, given the session's runtime directory: under the
/// desktop's own directory in it, and nowhere when it names nothing.
pub fn where_(run: Option<&str>) -> (r: Option<String>)
    ensures
        match run {
            Some(d) => if d@.len() > 0 {
                r matches Some(p) && p@ == crate::picker::joined(
                    crate::picker::joined(d@, "console"@),
                    SOCKET@,
                )
            } else {
                r is None
            },
            None => r is None,
        },
{
    let d = match run {
        Some(d) => text::letters(d),
        None => return None,
    };
    if d.len() == 0 {
        return None;
    }
    let ours = crate::picker::join_path(&d, &text::letters("console"));
    Some(text::text(&crate::picker::join_path(&ours, &text::letters(SOCKET))))
}

/// The words of a request, in the order they are spelt.
pub open spec fn words_of(q: AskedSeen) -> Seq<Seq<char>> {
    seq![
        open_word(),
        escaped_word(q.who),
        escaped_word(q.from),
        escaped_word(stamped(q.pressed)),
        digits(q.exec_nanos as nat),
    ] + q.argv.map_values(|w: Seq<char>| escaped_word(w))
}

/// A request spelt as the line that carries it.
pub open spec fn spelt_line(q: AskedSeen) -> Seq<char> {
    join(words_of(q), ' ')
}

/// What a line is read as: a request, when it is one.
pub open spec fn read_line(line: Seq<char>) -> Option<AskedSeen> {
    let w = split(line, ' ');
    if w[0] == open_word() && w.len() >= 5 && plain_word(w[1]).len() > 0 {
        Some(
            AskedSeen {
                who: plain_word(w[1]),
                from: plain_word(w[2]),
                pressed: unstamped(plain_word(w[3])),
                exec_nanos: took_of(w[4]),
                argv: w.skip(5).map_values(|s: Seq<char>| plain_word(s)),
            },
        )
    } else {
        None
    }
}

/// Whether a request comes back from being spelt as itself: it names a
/// panel, and its stamp, when it has one, says something.
pub open spec fn carried(q: AskedSeen) -> bool {
    &&& q.who.len() > 0
    &&& match q.pressed {
        Some(s) => s.len() > 0,
        None => true,
    }
}

/// What was asked for is what arrives: a request spelt and read back is the
/// same request, whatever its arguments hold, whenever it names a panel and
/// its stamp, when it has one, says something.
pub proof fn lemma_read_spelt(q: AskedSeen)
    requires
        carried(q),
    ensures
        read_line(spelt_line(q)) == Some(q),
{
    let w = words_of(q);
    let rest = q.argv.map_values(|a: Seq<char>| escaped_word(a));
    assert(w.len() == 5 + q.argv.len());
    lemma_escaped_clean(q.who);
    lemma_escaped_clean(q.from);
    lemma_escaped_clean(stamped(q.pressed));
    crate::handoff::lemma_digits_clean(q.exec_nanos as nat);
    assert(!open_word().contains(' ')) by {
        if open_word().contains(' ') {
            let k = choose|k: int| 0 <= k < open_word().len() && open_word()[k] == ' ';
            assert(0 <= k < 4);
        }
    }
    assert(text::none_hold(w, ' ')) by {
        assert forall|i: int| 0 <= i < w.len() implies !(#[trigger] w[i]).contains(' ') by {
            if i >= 5 {
                assert(w[i] == rest[i - 5]);
                lemma_escaped_clean(q.argv[i - 5]);
            }
        }
    }
    text::lemma_split_join(w, ' ');
    assert(split(spelt_line(q), ' ') == w);
    lemma_plain_escaped(q.who);
    lemma_plain_escaped(q.from);
    lemma_plain_escaped(stamped(q.pressed));
    crate::handoff::lemma_trim_digits(q.exec_nanos as nat);
    decimal::lemma_parse_u64_digits(q.exec_nanos);
    let back = w.skip(5).map_values(|s: Seq<char>| plain_word(s));
    assert(back =~= q.argv) by {
        assert forall|i: int| 0 <= i < q.argv.len() implies back[i] == q.argv[i] by {
            assert(w.skip(5)[i] == rest[i]);
            lemma_plain_escaped(q.argv[i]);
        }
    }
    assert(unstamped(plain_word(escaped_word(stamped(q.pressed)))) == q.pressed);
}

/// The line that carries a request.
pub fn spelt(asked: &Asked) -> (said: String)
    ensures
        said@ == spelt_line(asked@),
{
    let mut words: Vec<Vec<char>> = Vec::new();
    words.push(text::letters(OPEN));
    proof {
        reveal_strlit("open");
    }
    assert(words@[0]@ =~= open_word());
    words.push(escaped(&text::letters(asked.who.as_str())));
    words.push(escaped(&text::letters(asked.from.as_str())));
    let stamp = match &asked.pressed {
        Some(p) => text::letters(p.as_str()),
        None => Vec::new(),
    };
    assert(stamp@ =~= stamped(maybe(asked.pressed)));
    words.push(escaped(&stamp));
    words.push(decimal::written(asked.exec_nanos));
    let ghost head = words@.map_values(|v: Vec<char>| v@);
    let ghost args = strings(asked.argv@);
    let mut i: usize = 0;
    while i < asked.argv.len()
        invariant
            i <= asked.argv.len(),
            args == strings(asked.argv@),
            words@.map_values(|v: Vec<char>| v@) == head + args.take(i as int).map_values(
                |w: Seq<char>| escaped_word(w),
            ),
        decreases asked.argv.len() - i,
    {
        let ghost before = words@.map_values(|v: Vec<char>| v@);
        let w = escaped(&text::letters(asked.argv[i].as_str()));
        words.push(w);
        assert(words@.map_values(|v: Vec<char>| v@) =~= before.push(escaped_word(args[i as int])));
        i += 1;
        assert(args.take(i as int).map_values(|w: Seq<char>| escaped_word(w)) =~= args.take(
            i - 1,
        ).map_values(|w: Seq<char>| escaped_word(w)).push(escaped_word(args[i - 1])));
    }
    assert(args.take(i as int) =~= args);
    assert(words@.map_values(|v: Vec<char>| v@) =~= words_of(asked@));
    text::text(&text::join_with(&words, ' '))
}

/// A stamp read back: nothing is no stamp.
fn unstamp(s: Vec<char>) -> (o: Option<String>)
    ensures
        maybe(o) == unstamped(s@),
{
    if s.len() == 0 {
        None
    } else {
        Some(text::text(&s))
    }
}

/// The request a line carries, when it carries one.
pub fn read(line: &str) -> (r: Option<Asked>)
    ensures
        match r {
            Some(q) => read_line(line@) == Some(q@),
            None => read_line(line@) is None,
        },
{
    let words = text::split_on(&text::letters(line), ' ');
    let ghost w = words@.map_values(|v: Vec<char>| v@);
    proof {
        text::lemma_split_len(line@, ' ');
        reveal_strlit("open");
    }
    assert(w[0] == words[0]@);
    let open = text::letters(OPEN);
    assert(open@ =~= open_word());
    if !text::same(&words[0], &open) || words.len() < 5 {
        return None;
    }
    let who = plain(&words[1]);
    if who.len() == 0 {
        return None;
    }
    let from = plain(&words[2]);
    let pressed = plain(&words[3]);
    let exec = match decimal::parsed_u64(&text::trimmed(&words[4])) {
        Some(n) => n,
        None => 0,
    };
    let mut argv: Vec<String> = Vec::new();
    let mut i: usize = 5;
    while i < words.len()
        invariant
            5 <= i <= words.len(),
            w == words@.map_values(|v: Vec<char>| v@),
            strings(argv@) == w.subrange(5, i as int).map_values(|s: Seq<char>| plain_word(s)),
        decreases words.len() - i,
    {
        let ghost before = strings(argv@);
        let a = text::text(&plain(&words[i]));
        argv.push(a);
        assert(strings(argv@) =~= before.push(plain_word(w[i as int])));
        i += 1;
        assert(strings(argv@) =~= w.subrange(5, i as int).map_values(
            |s: Seq<char>| plain_word(s),
        ));
    }
    assert(w.subrange(5, i as int) =~= w.skip(5));
    let q = Asked {
        who: text::text(&who),
        from: text::text(&from),
        pressed: unstamp(pressed),
        exec_nanos: exec,
        argv,
    };
    assert(q@.argv =~= w.skip(5).map_values(|s: Seq<char>| plain_word(s)));
    Some(q)
}

/// Who drew the panel, once the host has said `h` and the panel was already
/// drawn by it or not: the host drew it when it said so or said it had gone.
pub fn after_hearing(so_far: Drawn, h: crate::handoff::Heard) -> (d: Drawn)
    ensures
        d == (match h {
            crate::handoff::Heard::Drawn | crate::handoff::Heard::Gone => Drawn::ByTheHost,
            crate::handoff::Heard::Unknown => so_far,
        }),
{
    match h {
        crate::handoff::Heard::Drawn | crate::handoff::Heard::Gone => Drawn::ByTheHost,
        crate::handoff::Heard::Unknown => so_far,
    }
}

} // verus!
