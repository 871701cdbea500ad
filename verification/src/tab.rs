//! The tab a panel was left on.
//!
//! Opened with a tab named, a panel opens at that one. Opened with nothing
//! named, it opens where it was left. The note is read and written by the
//! program around this; what a note says, and whether it is worth writing
//! again, is here.

use vstd::prelude::*;

use crate::text::{self, trim};

verus! {

/// The name of the note the tab is kept in.
pub const TAB: &'static str = "tab";

/// What a note names: the tab, trimmed, or nothing when it says nothing.
pub open spec fn read_of(said: Seq<char>) -> Option<Seq<char>> {
    if trim(said).len() == 0 {
        None
    } else {
        Some(trim(said))
    }
}

/// The tab a note names.
pub fn read(said: &str) -> (r: Option<String>)
    ensures
        match r {
            Some(t) => read_of(said@) == Some(t@),
            None => read_of(said@) is None,
        },
{
    let t = text::trimmed(&text::letters(said));
    if t.len() == 0 {
        None
    } else {
        Some(text::text(&t))
    }
}

/// Whether a panel on the tab `title`, whose note names `last`, writes the
/// note again: not for a tab with no name, and not for the tab it names.
pub open spec fn worth_keeping_of(title: Seq<char>, last: Option<Seq<char>>) -> bool {
    !(title.len() == 0 || last == Some(title))
}

/// What the note says for the tab `title`: its name on a line.
pub open spec fn kept_of(title: Seq<char>) -> Seq<char> {
    title.push('\n')
}

/// The tab a panel's note names, given what the note says, if it says
/// anything.
pub fn last(said: Option<&str>) -> (r: Option<String>)
    ensures
        match said {
            Some(s) => match r {
                Some(t) => read_of(s@) == Some(t@),
                None => read_of(s@) is None,
            },
            None => r is None,
        },
{
    match said {
        Some(s) => read(s),
        None => None,
    }
}

/// What is written to the note once a panel is on the tab `title`, whose
/// note names `last`: the tab's name on a line, unless the tab has no name
/// or is the one the note names already.
pub fn keep(title: &str, last: &Option<String>) -> (r: Option<String>)
    ensures
        match r {
            Some(said) => worth_keeping_of(
                title@,
                match last {
                    Some(l) => Some(l@),
                    None => None,
                },
            ) && said@ == kept_of(title@),
            None => !worth_keeping_of(
                title@,
                match last {
                    Some(l) => Some(l@),
                    None => None,
                },
            ),
        },
{
    let t = text::letters(title);
    if t.len() == 0 {
        return None;
    }
    match last {
        Some(l) => if text::same(&text::letters(l.as_str()), &t) {
            return None;
        },
        None => {},
    }
    let mut said = t;
    said.push('\n');
    Some(text::text(&said))
}

/// The tab a note is written for is the tab it is read back as.
pub proof fn lemma_a_tab_kept_is_the_tab_read(title: Seq<char>)
    requires
        title.len() > 0,
        trim(title) == title,
    ensures
        read_of(kept_of(title)) == Some(title),
{
    assert(crate::text::is_white_space('\n'));
    assert(title.push('\n').drop_last() =~= title);
    lemma_trim_start_stays(title);
    assert(crate::text::trim_start(title.push('\n')) =~= crate::text::trim_start(title).push('\n')) by {
        lemma_trim_start_push(title, '\n');
    }
}

/// A run trimmed at both ends has nothing left to trim at its front.
proof fn lemma_trim_start_stays(s: Seq<char>)
    requires
        s.len() > 0,
        trim(s) == s,
    ensures
        crate::text::trim_start(s) == s,
        !crate::text::is_white_space(s[0]),
{
    lemma_trim_start_shorter(s);
    lemma_trim_end_shorter(crate::text::trim_start(s));
    if crate::text::is_white_space(s[0]) {
        lemma_trim_start_shorter(s.drop_first());
    }
}

/// Trimming the front never makes a run longer.
proof fn lemma_trim_start_shorter(s: Seq<char>)
    ensures
        crate::text::trim_start(s).len() <= s.len(),
        crate::text::trim_start(s).len() == s.len() ==> crate::text::trim_start(s) == s,
    decreases s.len(),
{
    if s.len() > 0 && crate::text::is_white_space(s[0]) {
        lemma_trim_start_shorter(s.drop_first());
    }
}

/// Trimming the end never makes a run longer.
proof fn lemma_trim_end_shorter(s: Seq<char>)
    ensures
        crate::text::trim_end(s).len() <= s.len(),
    decreases s.len(),
{
    if s.len() > 0 && crate::text::is_white_space(s.last()) {
        lemma_trim_end_shorter(s.drop_last());
    }
}

/// Trimming the front of a run with something after it that is not trimmed
/// away leaves what follows in place.
proof fn lemma_trim_start_push(s: Seq<char>, c: char)
    requires
        s.len() > 0,
        !crate::text::is_white_space(s[0]),
    ensures
        crate::text::trim_start(s.push(c)) == crate::text::trim_start(s).push(c),
{
    assert(s.push(c)[0] == s[0]);
}

} // verus!
