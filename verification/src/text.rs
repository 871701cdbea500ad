//! Words as the rest of the library reads them: a run of characters, split on
//! one of them and joined back with it, with white space taken off the ends.
//!
//! Everything here works on a `Vec<char>` and says what it does over the
//! characters as a `Seq<char>`; a `String` is turned into its characters at the
//! edge of a function that reads one and back at the edge of one that writes
//! one.

use vstd::prelude::*;

verus! {

/// The characters of `s`, in order.
pub(crate) fn letters(s: &str) -> (v: Vec<char>)
    ensures
        v@ == s@,
{
    broadcast use vstd::string::axiom_spec_iter;

    let mut v: Vec<char> = Vec::new();
    for c in it: s.chars()
        invariant
            it.seq() == s@,
            v@ == it.seq().take(it.index() as int),
    {
        v.push(c);
        assert(v@ =~= it.seq().take(it.index() + 1));
    }
    assert(v@ =~= s@);
    v
}

/// The string made of the characters of `v`, in order.
///
/// Trusted: a `String` collected from an iterator of `&char`, which std
/// documents as appending each character in turn; that is all the contract
/// claims.
#[verifier::external_body]
pub(crate) fn text(v: &Vec<char>) -> (s: String)
    ensures
        s@ == v@,
{
    v.iter().collect()
}

/// Whether `c` has the Unicode `Alphabetic` property.
pub uninterp spec fn alphabetic_of(c: char) -> bool;

/// Whether `c` is in one of Unicode's numeric general categories.
pub uninterp spec fn numeric_of(c: char) -> bool;

/// The characters `c` maps to in Unicode's upper case.
pub uninterp spec fn uppercase_of(c: char) -> Seq<char>;

/// The characters `s` maps to in Unicode's lower case.
pub uninterp spec fn lowercase_of(s: Seq<char>) -> Seq<char>;

/// Whether `c` has the `Alphabetic` property, spelled out for ASCII: there
/// only the letters have it.
pub open spec fn is_letter(c: char) -> bool {
    if (c as u32) < 0x80 {
        'a' <= c <= 'z' || 'A' <= c <= 'Z'
    } else {
        alphabetic_of(c)
    }
}

/// Whether `c` is a numeral, spelled out for ASCII: there only the digits
/// are.
pub open spec fn is_numeral(c: char) -> bool {
    if (c as u32) < 0x80 {
        '0' <= c <= '9'
    } else {
        numeric_of(c)
    }
}

/// The upper case of `c`, spelled out for the ASCII letters.
pub open spec fn upper(c: char) -> Seq<char> {
    if 'a' <= c <= 'z' {
        seq![((c as u32) - 32) as char]
    } else if 'A' <= c <= 'Z' {
        seq![c]
    } else {
        uppercase_of(c)
    }
}

/// Whether `c` is a letter.
///
/// Trusted: `char::is_alphabetic`, which std documents as whether `c` has the
/// `Alphabetic` property; the contract names that, and says only what
/// Unicode's tables give for ASCII: of its characters, the letters have it
/// and no other does.
#[verifier::external_body]
pub(crate) fn alphabetic(c: char) -> (r: bool)
    ensures
        r == alphabetic_of(c),
        r == is_letter(c),
        (c as u32) < 0x80 ==> (r <==> ('a' <= c <= 'z' || 'A' <= c <= 'Z')),
{
    c.is_alphabetic()
}

/// Whether `c` is a numeral.
///
/// Trusted: `char::is_numeric`, which std documents as whether `c` is in one
/// of the general categories for numbers; the contract names that, and says
/// only what Unicode's tables give for ASCII: of its characters, the digits
/// are and no other is.
#[verifier::external_body]
pub(crate) fn numeric(c: char) -> (r: bool)
    ensures
        r == numeric_of(c),
        r == is_numeral(c),
        (c as u32) < 0x80 ==> (r <==> ('0' <= c <= '9')),
{
    c.is_numeric()
}

/// `c` in upper case, which may be more than one character.
///
/// Trusted: `char::to_uppercase` collected into a string; the contract names
/// the mapping, and says that an ASCII lower-case letter becomes the one
/// letter 32 below it and that an ASCII upper-case letter stays itself, as
/// std's documentation of the ASCII case shows.
#[verifier::external_body]
pub(crate) fn uppercase(c: char) -> (r: String)
    ensures
        r@ == uppercase_of(c),
        r@ == upper(c),
        ('a' <= c <= 'z') ==> r@ == seq![((c as u32) - 32) as char],
        ('A' <= c <= 'Z') ==> r@ == seq![c],
{
    c.to_uppercase().collect()
}

/// `s` in lower case.
///
/// Trusted: `str::to_lowercase`; the contract names the mapping and claims
/// nothing more of it.
#[verifier::external_body]
pub(crate) fn lowercase(s: &str) -> (r: String)
    ensures
        r@ == lowercase_of(s@),
{
    s.to_lowercase()
}

/// Whether `c` has the Unicode `White_Space` property, which is what
/// `char::is_whitespace` and `str::trim` go by.
pub open spec fn is_white_space(c: char) -> bool {
    let n = c as u32;
    ||| 0x9 <= n <= 0xd
    ||| n == 0x20
    ||| n == 0x85
    ||| n == 0xa0
    ||| n == 0x1680
    ||| 0x2000 <= n <= 0x200a
    ||| n == 0x2028
    ||| n == 0x2029
    ||| n == 0x202f
    ||| n == 0x205f
    ||| n == 0x3000
}

/// Whether `c` is white space.
pub fn white(c: char) -> (b: bool)
    ensures
        b == is_white_space(c),
{
    let n = c as u32;
    (0x9 <= n && n <= 0xd) || n == 0x20 || n == 0x85 || n == 0xa0 || n == 0x1680 || (0x2000
        <= n && n <= 0x200a) || n == 0x2028 || n == 0x2029 || n == 0x202f || n == 0x205f || n
        == 0x3000
}

/// `s` with the white space at its front taken off.
pub open spec fn trim_start(s: Seq<char>) -> Seq<char>
    decreases s.len(),
{
    if s.len() > 0 && is_white_space(s[0]) {
        trim_start(s.drop_first())
    } else {
        s
    }
}

/// `s` with the white space at its end taken off.
pub open spec fn trim_end(s: Seq<char>) -> Seq<char>
    decreases s.len(),
{
    if s.len() > 0 && is_white_space(s.last()) {
        trim_end(s.drop_last())
    } else {
        s
    }
}

/// `s` with the white space at both ends taken off, as `str::trim` does.
pub open spec fn trim(s: Seq<char>) -> Seq<char> {
    trim_end(trim_start(s))
}

/// Trimming the front of `s` from position `i`, where everything before `i`
/// is white, is trimming the front of `s`.
proof fn lemma_trim_start_from(s: Seq<char>, i: int)
    requires
        0 <= i <= s.len(),
        forall|j: int| 0 <= j < i ==> is_white_space(#[trigger] s[j]),
    ensures
        trim_start(s) == trim_start(s.skip(i)),
    decreases i,
{
    if i > 0 {
        assert(s.drop_first().skip(i - 1) =~= s.skip(i));
        lemma_trim_start_from(s.drop_first(), i - 1);
    } else {
        assert(s.skip(0) =~= s);
    }
}

/// Trimming the end of `s` up to position `i`, where everything from `i` on is
/// white, is trimming the end of `s`.
proof fn lemma_trim_end_to(s: Seq<char>, i: int)
    requires
        0 <= i <= s.len(),
        forall|j: int| i <= j < s.len() ==> is_white_space(#[trigger] s[j]),
    ensures
        trim_end(s) == trim_end(s.take(i)),
    decreases s.len() - i,
{
    if i < s.len() {
        assert(s.drop_last().take(i) =~= s.take(i));
        lemma_trim_end_to(s.drop_last(), i);
    } else {
        assert(s.take(i) =~= s);
    }
}

/// `s` with the white space at both ends taken off.
pub fn trimmed(s: &Vec<char>) -> (t: Vec<char>)
    ensures
        t@ == trim(s@),
{
    let n = s.len();
    let mut from: usize = 0;
    while from < n && white(s[from])
        invariant
            n == s.len(),
            from <= n,
            forall|j: int| 0 <= j < from ==> is_white_space(#[trigger] s@[j]),
        decreases n - from,
    {
        from += 1;
    }
    proof {
        lemma_trim_start_from(s@, from as int);
    }
    let ghost rest = s@.skip(from as int);
    assert(rest.len() == 0 || !is_white_space(rest[0]));
    assert(trim_start(rest) == rest);
    let mut to: usize = n;
    while to > from && white(s[to - 1])
        invariant
            n == s.len(),
            from <= to <= n,
            rest == s@.skip(from as int),
            forall|j: int| to <= j < n ==> is_white_space(#[trigger] s@[j]),
        decreases to,
    {
        to -= 1;
    }
    proof {
        assert forall|j: int| to - from <= j < rest.len() implies is_white_space(#[trigger] rest[j]) by {
            assert(rest[j] == s@[j + from]);
        }
        lemma_trim_end_to(rest, to - from);
        let kept = rest.take(to - from);
        assert(kept.len() == 0 || !is_white_space(kept.last()));
    }
    let mut t: Vec<char> = Vec::new();
    let mut i = from;
    while i < to
        invariant
            n == s.len(),
            from <= i <= to <= n,
            t@ =~= s@.subrange(from as int, i as int),
        decreases to - i,
    {
        t.push(s[i]);
        i += 1;
    }
    assert(t@ =~= rest.take(to - from));
    t
}

/// The words of `s` between each `sep`, as `str::split` with a `char` gives
/// them: there is always at least one, and an empty `s` is one empty word.
pub open spec fn split(s: Seq<char>, sep: char) -> Seq<Seq<char>>
    decreases s.len(),
{
    if s.len() == 0 {
        seq![Seq::empty()]
    } else {
        let before = split(s.drop_last(), sep);
        if s.last() == sep {
            before.push(Seq::empty())
        } else {
            before.update(before.len() - 1, before.last().push(s.last()))
        }
    }
}

/// The words `w` with one `sep` between each two of them.
pub open spec fn join(w: Seq<Seq<char>>, sep: char) -> Seq<char>
    decreases w.len(),
{
    if w.len() == 0 {
        Seq::empty()
    } else if w.len() == 1 {
        w[0]
    } else {
        join(w.drop_last(), sep) + seq![sep] + w.last()
    }
}

/// Whether no word of `w` holds `sep`.
pub open spec fn none_hold(w: Seq<Seq<char>>, sep: char) -> bool {
    forall|i: int| 0 <= i < w.len() ==> !(#[trigger] w[i]).contains(sep)
}

/// There is always a word.
pub proof fn lemma_split_len(s: Seq<char>, sep: char)
    ensures
        split(s, sep).len() >= 1,
    decreases s.len(),
{
    if s.len() > 0 {
        lemma_split_len(s.drop_last(), sep);
    }
}

/// Splitting `a` followed by a run `b` that holds no `sep` is splitting `a`,
/// with `b` added to its last word.
proof fn lemma_split_extend(a: Seq<char>, b: Seq<char>, sep: char)
    requires
        !b.contains(sep),
    ensures
        split(a + b, sep).len() == split(a, sep).len(),
        split(a + b, sep) == split(a, sep).update(
            split(a, sep).len() - 1,
            split(a, sep).last() + b,
        ),
    decreases b.len(),
{
    lemma_split_len(a, sep);
    if b.len() == 0 {
        assert(a + b =~= a);
        assert(split(a, sep).last() + b =~= split(a, sep).last());
        assert(split(a, sep).update(split(a, sep).len() - 1, split(a, sep).last())
            =~= split(a, sep));
    } else {
        let b1 = b.drop_last();
        assert(!b1.contains(sep)) by {
            if b1.contains(sep) {
                let k = choose|k: int| 0 <= k < b1.len() && b1[k] == sep;
                assert(b[k] == sep);
            }
        }
        lemma_split_extend(a, b1, sep);
        assert((a + b).drop_last() =~= a + b1);
        assert((a + b).last() == b.last());
        assert(b.last() != sep) by {
            assert(b[b.len() - 1] == b.last());
        }
        assert(split(a, sep).last() + b1 + seq![b.last()] =~= split(a, sep).last() + b) by {
            assert(b1.push(b.last()) =~= b);
        }
        assert(split(a + b, sep) =~= split(a, sep).update(
            split(a, sep).len() - 1,
            split(a, sep).last() + b,
        ));
    }
}

/// Words that hold no `sep`, joined with it, split back into the same words.
pub proof fn lemma_split_join(w: Seq<Seq<char>>, sep: char)
    requires
        w.len() >= 1,
        none_hold(w, sep),
    ensures
        split(join(w, sep), sep) == w,
    decreases w.len(),
{
    if w.len() == 1 {
        lemma_split_extend(Seq::empty(), w[0], sep);
        assert(Seq::<char>::empty() + w[0] =~= w[0]);
        assert(split(Seq::<char>::empty(), sep).last() + w[0] =~= w[0]);
        assert(split(join(w, sep), sep) =~= w);
    } else {
        let front = w.drop_last();
        assert(none_hold(front, sep)) by {
            assert forall|i: int| 0 <= i < front.len() implies !(#[trigger] front[i]).contains(sep) by {
                assert(front[i] == w[i]);
            }
        }
        lemma_split_join(front, sep);
        let head = join(front, sep) + seq![sep];
        assert(head.drop_last() =~= join(front, sep));
        assert(split(head, sep) =~= front.push(Seq::empty()));
        assert(!w.last().contains(sep)) by {
            assert(w[w.len() - 1] == w.last());
        }
        lemma_split_extend(head, w.last(), sep);
        assert(Seq::<char>::empty() + w.last() =~= w.last());
        assert(split(join(w, sep), sep) =~= w);
    }
}

/// The words of `s` between each `sep`.
pub fn split_on(s: &Vec<char>, sep: char) -> (w: Vec<Vec<char>>)
    ensures
        w@.map_values(|v: Vec<char>| v@) == split(s@, sep),
{
    let mut w: Vec<Vec<char>> = Vec::new();
    w.push(Vec::new());
    let mut i: usize = 0;
    while i < s.len()
        invariant
            i <= s.len(),
            w.len() >= 1,
            w@.map_values(|v: Vec<char>| v@) == split(s@.take(i as int), sep),
        decreases s.len() - i,
    {
        let c = s[i];
        let ghost before = w@.map_values(|v: Vec<char>| v@);
        assert(s@.take(i + 1).drop_last() =~= s@.take(i as int));
        assert(s@.take(i + 1).last() == c);
        if c == sep {
            w.push(Vec::new());
            assert(w@.map_values(|v: Vec<char>| v@) =~= before.push(Seq::empty()));
        } else {
            let last = w.len() - 1;
            let mut word = w[last].clone();
            word.push(c);
            w.set(last, word);
            assert(w@.map_values(|v: Vec<char>| v@) =~= before.update(
                before.len() - 1,
                before.last().push(c),
            ));
        }
        i += 1;
    }
    assert(s@.take(s.len() as int) =~= s@);
    w
}

/// The words of `w` with `sep` between each two of them.
pub fn join_with(w: &Vec<Vec<char>>, sep: char) -> (s: Vec<char>)
    ensures
        s@ == join(w@.map_values(|v: Vec<char>| v@), sep),
{
    let ghost words = w@.map_values(|v: Vec<char>| v@);
    let mut s: Vec<char> = Vec::new();
    let mut i: usize = 0;
    while i < w.len()
        invariant
            i <= w.len(),
            words == w@.map_values(|v: Vec<char>| v@),
            s@ == join(words.take(i as int), sep),
        decreases w.len() - i,
    {
        let ghost was = s@;
        if i > 0 {
            s.push(sep);
        }
        let mut j: usize = 0;
        let m = w[i].len();
        while j < m
            invariant
                i < w.len(),
                m == w[i as int].len(),
                j <= m,
                s@ == (if i > 0 { was + seq![sep] } else { was }) + w[i as int]@.take(j as int),
            decreases m - j,
        {
            s.push(w[i][j]);
            j += 1;
            assert(w[i as int]@.take(j as int) =~= w[i as int]@.take(j - 1).push(
                w[i as int]@[j - 1],
            ));
        }
        assert(w[i as int]@.take(j as int) =~= w[i as int]@);
        assert(words.take(i + 1).drop_last() =~= words.take(i as int));
        assert(words.take(i + 1).last() == w[i as int]@);
        if i == 0 {
            assert(words.take(1) =~= seq![w[0]@]);
            assert(seq![] + w[0]@ =~= w[0]@);
        }
        i += 1;
    }
    assert(words.take(w.len() as int) =~= words);
    s
}

/// Whether the characters `a` and `b` are the same.
pub fn same(a: &Vec<char>, b: &Vec<char>) -> (r: bool)
    ensures
        r == (a@ == b@),
{
    if a.len() != b.len() {
        return false;
    }
    let mut i: usize = 0;
    while i < a.len()
        invariant
            a.len() == b.len(),
            i <= a.len(),
            forall|j: int| 0 <= j < i ==> a@[j] == b@[j],
        decreases a.len() - i,
    {
        if a[i] != b[i] {
            return false;
        }
        i += 1;
    }
    assert(a@ =~= b@);
    true
}

/// Whether `c` is one of the characters of `s`.
pub fn holds(s: &Vec<char>, c: char) -> (r: bool)
    ensures
        r == s@.contains(c),
{
    let mut i: usize = 0;
    while i < s.len()
        invariant
            i <= s.len(),
            forall|j: int| 0 <= j < i ==> s@[j] != c,
        decreases s.len() - i,
    {
        if s[i] == c {
            assert(s@[i as int] == c);
            return true;
        }
        i += 1;
    }
    false
}

/// The characters of `a` followed by those of `b`.
pub fn extend(a: &mut Vec<char>, b: &Vec<char>)
    ensures
        final(a)@ == old(a)@ + b@,
{
    let mut i: usize = 0;
    while i < b.len()
        invariant
            i <= b.len(),
            a@ == old(a)@ + b@.take(i as int),
        decreases b.len() - i,
    {
        a.push(b[i]);
        i += 1;
        assert(b@.take(i as int) =~= b@.take(i - 1).push(b@[i - 1]));
    }
    assert(b@.take(b.len() as int) =~= b@);
}

/// Whether `i` is where `c` first stands in `s`.
pub open spec fn is_first(s: Seq<char>, c: char, i: int) -> bool {
    &&& 0 <= i < s.len()
    &&& s[i] == c
    &&& forall|j: int| 0 <= j < i ==> s[j] != c
}

/// Where `c` first stands in `s`, as `str::split_once` finds it.
pub open spec fn first_of(s: Seq<char>, c: char) -> int {
    choose|i: int| is_first(s, c, i)
}

/// There is only one place where a character first stands.
pub proof fn lemma_first_unique(s: Seq<char>, c: char, i: int)
    requires
        is_first(s, c, i),
    ensures
        first_of(s, c) == i,
{
    let k = first_of(s, c);
    assert(is_first(s, c, k));
    if k < i {
        assert(s[k] != c);
    }
    if i < k {
        assert(s[i] != c);
    }
}

/// Where `c` first stands in `s`, if it stands there at all.
pub fn find_first(s: &Vec<char>, c: char) -> (r: Option<usize>)
    ensures
        match r {
            Some(i) => s@.contains(c) && first_of(s@, c) == i && is_first(s@, c, i as int),
            None => !s@.contains(c),
        },
{
    let mut i: usize = 0;
    while i < s.len()
        invariant
            i <= s.len(),
            forall|j: int| 0 <= j < i ==> s@[j] != c,
        decreases s.len() - i,
    {
        if s[i] == c {
            proof {
                lemma_first_unique(s@, c, i as int);
            }
            return Some(i);
        }
        i += 1;
    }
    None
}

/// The characters of `s` from `from` up to `to`.
pub fn slice(s: &Vec<char>, from: usize, to: usize) -> (t: Vec<char>)
    requires
        from <= to <= s.len(),
    ensures
        t@ == s@.subrange(from as int, to as int),
{
    let mut t: Vec<char> = Vec::new();
    let mut i = from;
    while i < to
        invariant
            from <= i <= to <= s.len(),
            t@ =~= s@.subrange(from as int, i as int),
        decreases to - i,
    {
        t.push(s[i]);
        i += 1;
    }
    t
}

} // verus!
