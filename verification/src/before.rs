//! What the machine said last time it was asked.
//!
//! Some tabs are whatever is plugged in or in the air, and there is nothing to
//! draw of them in advance; but they were known last time, so what a command
//! says is written down as it answers, and the tab builds its first rows out of
//! what was written. Reading and writing the file is the program's around
//! this; what the file is called is here.

use vstd::prelude::*;

use crate::text;

verus! {

/// Whether `c` is an ASCII letter or digit.
pub open spec fn is_ascii_alphanumeric(c: char) -> bool {
    ('0' <= c <= '9') || ('a' <= c <= 'z') || ('A' <= c <= 'Z')
}

/// `c` in lower case, when it is an ASCII capital.
pub open spec fn ascii_lower(c: char) -> char {
    if 'A' <= c <= 'Z' {
        ((c as u32) + 32) as char
    } else {
        c
    }
}

/// What a character of a question is filed as: itself in lower case when it
/// is an ASCII letter or digit, and a dash otherwise.
pub open spec fn filed_char(c: char) -> char {
    if is_ascii_alphanumeric(c) {
        ascii_lower(c)
    } else {
        '-'
    }
}

/// The name a question is filed under: each of its characters filed, or
/// `asked` when it has none.
pub open spec fn filed_of(note: Seq<char>) -> Seq<char> {
    if note.len() == 0 {
        "asked"@
    } else {
        note.map_values(|c: char| filed_char(c))
    }
}

/// What a character of a question is filed as.
fn filed_letter(c: char) -> (r: char)
    ensures
        r == filed_char(c),
{
    if ('0' <= c && c <= '9') || ('a' <= c && c <= 'z') {
        c
    } else if 'A' <= c && c <= 'Z' {
        let n = c as u32 + 32;
        assert(0x61 <= n <= 0x7a);
        (n as u8) as char
    } else {
        '-'
    }
}

/// The name a question is filed under, one any filesystem would take.
pub fn filed(note: &str) -> (r: String)
    ensures
        r@ == filed_of(note@),
{
    let s = text::letters(note);
    if s.len() == 0 {
        return text::text(&text::letters("asked"));
    }
    let mut out: Vec<char> = Vec::new();
    let mut i: usize = 0;
    while i < s.len()
        invariant
            i <= s.len(),
            out@ =~= s@.take(i as int).map_values(|c: char| filed_char(c)),
        decreases s.len() - i,
    {
        out.push(filed_letter(s[i]));
        i += 1;
    }
    assert(s@.take(i as int) =~= s@);
    text::text(&out)
}

/// Where what was said last about `note` is kept, for the program called
/// `whose`, under the desktop's own cache directory `ours`.
pub open spec fn beside_of(ours: Seq<char>, whose: Seq<char>, note: Seq<char>) -> Seq<char> {
    crate::picker::joined(crate::picker::joined(ours, "asked"@), whose + "."@ + filed_of(note))
}

/// Where what was said last about `note` is kept: nowhere, when there is no
/// cache directory to keep it in.
pub fn beside(ours: Option<&str>, whose: &str, note: &str) -> (r: Option<String>)
    ensures
        match ours {
            Some(o) => r matches Some(p) && p@ == beside_of(o@, whose@, note@),
            None => r is None,
        },
{
    match ours {
        Some(o) => {
            let folder = crate::picker::join_path(&text::letters(o), &text::letters("asked"));
            let mut name = text::letters(whose);
            text::extend(&mut name, &text::letters("."));
            text::extend(&mut name, &text::letters(filed(note).as_str()));
            Some(text::text(&crate::picker::join_path(&folder, &name)))
        },
        None => None,
    }
}

} // verus!
