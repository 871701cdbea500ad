//! The panel that was up when the machine went down, so it comes back up.
//!
//! The host writes which panel it put up and what it was asked with, every
//! time it puts one up, and takes it away when a person puts the panel away.
//! What is written is the panel's name and its arguments, a nul between each
//! two, since an argument may hold anything but a nul. Writing and reading the
//! note, and starting the panel again, are the program's around this.

use vstd::prelude::*;

use crate::notes::Note;
use crate::text::{self, join, none_hold, split};

verus! {

/// The note a panel left open is kept in.
pub fn note() -> (n: Note<'static>)
    ensures
        n.program@ == "panels"@,
        n.called@ == "left-open"@,
{
    Note { program: "panels", called: "left-open" }
}

/// A panel left open: whose it is and what it was asked with.
#[derive(Debug, Clone, PartialEq, Eq)]
pub struct LeftOpen {
    pub who: String,
    pub arguments: Vec<String>,
}

/// The characters between two words.
pub open spec fn between() -> char {
    '\0'
}

/// The words of a panel left open: its name, then its arguments.
pub open spec fn words_of(who: Seq<char>, arguments: Seq<Seq<char>>) -> Seq<Seq<char>> {
    seq![who] + arguments
}

/// What is written for a panel left open.
pub open spec fn spelled_of(who: Seq<char>, arguments: Seq<Seq<char>>) -> Seq<char> {
    join(words_of(who, arguments), between())
}

/// What a note is read as: a panel and its arguments, unless the first word
/// is empty.
pub open spec fn read_of(said: Seq<char>) -> Option<(Seq<char>, Seq<Seq<char>>)> {
    let w = split(said, between());
    if w[0].len() == 0 {
        None
    } else {
        Some((w[0], w.drop_first()))
    }
}

/// The characters of each string of `v`.
pub open spec fn strings(v: Seq<String>) -> Seq<Seq<char>> {
    v.map_values(|s: String| s@)
}

/// What is written for a panel left open.
pub fn spelled(open: &LeftOpen) -> (said: String)
    ensures
        said@ == spelled_of(open.who@, strings(open.arguments@)),
{
    let mut words: Vec<Vec<char>> = Vec::new();
    words.push(text::letters(open.who.as_str()));
    let ghost args = strings(open.arguments@);
    let mut i: usize = 0;
    while i < open.arguments.len()
        invariant
            i <= open.arguments.len(),
            args == strings(open.arguments@),
            words@.map_values(|v: Vec<char>| v@) == seq![open.who@] + args.take(i as int),
        decreases open.arguments.len() - i,
    {
        let ghost before = words@.map_values(|v: Vec<char>| v@);
        let w = text::letters(open.arguments[i].as_str());
        words.push(w);
        assert(words@.map_values(|v: Vec<char>| v@) =~= before.push(args[i as int]));
        i += 1;
        assert(args.take(i as int) =~= args.take(i - 1).push(args[i - 1]));
    }
    assert(args.take(i as int) =~= args);
    text::text(&text::join_with(&words, '\0'))
}

/// The panel a note says was left open, if it says one.
pub fn read(said: &str) -> (r: Option<LeftOpen>)
    ensures
        match r {
            Some(o) => read_of(said@) == Some((o.who@, strings(o.arguments@))),
            None => read_of(said@) is None,
        },
{
    let words = text::split_on(&text::letters(said), '\0');
    let ghost w = words@.map_values(|v: Vec<char>| v@);
    proof {
        text::lemma_split_len(said@, '\0');
    }
    assert(w[0] == words[0]@);
    if words[0].len() == 0 {
        return None;
    }
    let mut arguments: Vec<String> = Vec::new();
    let mut i: usize = 1;
    while i < words.len()
        invariant
            1 <= i <= words.len(),
            w == words@.map_values(|v: Vec<char>| v@),
            strings(arguments@) == w.subrange(1, i as int),
        decreases words.len() - i,
    {
        let ghost before = strings(arguments@);
        let a = text::text(&words[i]);
        arguments.push(a);
        assert(strings(arguments@) =~= before.push(w[i as int]));
        i += 1;
    }
    assert(w.subrange(1, i as int) =~= w.drop_first());
    Some(LeftOpen { who: text::text(&words[0]), arguments })
}

/// A panel and its arguments come back as they went in: written and read
/// back, a panel left open is the same panel, whenever it has a name and
/// nothing in it holds a nul.
pub proof fn lemma_read_spelled(who: Seq<char>, arguments: Seq<Seq<char>>)
    requires
        who.len() > 0,
        none_hold(words_of(who, arguments), between()),
    ensures
        read_of(spelled_of(who, arguments)) == Some((who, arguments)),
{
    text::lemma_split_join(words_of(who, arguments), between());
    assert(words_of(who, arguments).drop_first() =~= arguments);
}

/// A panel put away leaves nothing to put back.
pub proof fn lemma_nothing_left(said: Seq<char>)
    requires
        said.len() == 0,
    ensures
        read_of(said) is None,
{
}

} // verus!
