//! Whole numbers written in decimal, and read back the way `str::parse` reads
//! them: a sign where the type has one, then digits and nothing else.

use vstd::prelude::*;

verus! {

/// The digit that stands for `d`, for `d` from nought to nine.
pub open spec fn digit_of(d: int) -> char {
    seq!['0', '1', '2', '3', '4', '5', '6', '7', '8', '9'][d]
}

/// Whether `c` is one of the ten digits.
pub open spec fn is_digit(c: char) -> bool {
    '0' <= c <= '9'
}

/// What the digit `c` is worth.
pub open spec fn worth(c: char) -> int {
    (c as int) - ('0' as int)
}

/// Whether every character of `s` is a digit.
pub open spec fn all_digits(s: Seq<char>) -> bool {
    forall|i: int| 0 <= i < s.len() ==> is_digit(#[trigger] s[i])
}

/// What the digits `s` are worth, most significant first.
pub open spec fn value(s: Seq<char>) -> nat
    decreases s.len(),
{
    if s.len() == 0 {
        0
    } else {
        (value(s.drop_last()) * 10 + worth(s.last())) as nat
    }
}

/// `n` in decimal, with no leading noughts.
pub open spec fn digits(n: nat) -> Seq<char>
    decreases n,
{
    if n < 10 {
        seq![digit_of(n as int)]
    } else {
        digits(n / 10).push(digit_of((n % 10) as int))
    }
}

/// `n` in decimal, with a minus sign in front when it is below nought.
pub open spec fn signed_digits(n: int) -> Seq<char> {
    if n < 0 {
        seq!['-'] + digits((-n) as nat)
    } else {
        digits(n as nat)
    }
}

/// Digits with no sign, as an unsigned parse reads them.
pub open spec fn unsigned_of(t: Seq<char>, most: nat) -> Option<nat> {
    if t.len() > 0 && all_digits(t) && value(t) <= most {
        Some(value(t))
    } else {
        None
    }
}

/// What `u64::from_str` makes of `s`.
pub open spec fn parse_u64(s: Seq<char>) -> Option<u64> {
    let t = if s.len() > 0 && s[0] == '+' {
        s.drop_first()
    } else {
        s
    };
    match unsigned_of(t, u64::MAX as nat) {
        Some(v) => Some(v as u64),
        None => None,
    }
}

/// What `u32::from_str` makes of `s`.
pub open spec fn parse_u32(s: Seq<char>) -> Option<u32> {
    match parse_u64(s) {
        Some(v) => if v <= u32::MAX {
            Some(v as u32)
        } else {
            None
        },
        None => None,
    }
}

/// What `i32::from_str` makes of `s`.
pub open spec fn parse_i32(s: Seq<char>) -> Option<i32> {
    if s.len() > 0 && s[0] == '-' {
        match unsigned_of(s.drop_first(), 0x8000_0000) {
            Some(v) => Some((-v) as i32),
            None => None,
        }
    } else {
        let t = if s.len() > 0 && s[0] == '+' {
            s.drop_first()
        } else {
            s
        };
        match unsigned_of(t, i32::MAX as nat) {
            Some(v) => Some(v as i32),
            None => None,
        }
    }
}

/// The digit that stands for `d` is a digit worth `d`.
pub proof fn lemma_digit_of(d: int)
    requires
        0 <= d < 10,
    ensures
        is_digit(digit_of(d)),
        worth(digit_of(d)) == d,
{
    let t = seq!['0', '1', '2', '3', '4', '5', '6', '7', '8', '9'];
    assert(t[0] == '0' && t[1] == '1' && t[2] == '2' && t[3] == '3' && t[4] == '4');
    assert(t[5] == '5' && t[6] == '6' && t[7] == '7' && t[8] == '8' && t[9] == '9');
}

/// The digits of a number are digits, there is at least one, and they are
/// worth the number.
pub proof fn lemma_digits(n: nat)
    ensures
        all_digits(digits(n)),
        digits(n).len() >= 1,
        value(digits(n)) == n,
    decreases n,
{
    if n < 10 {
        lemma_digit_of(n as int);
        assert(digits(n).drop_last() =~= Seq::<char>::empty());
        assert(value(digits(n)) == value(digits(n).drop_last()) * 10 + worth(digits(n).last()));
    } else {
        lemma_digits(n / 10);
        lemma_digit_of((n % 10) as int);
        assert((n / 10) * 10 + n % 10 == n) by (nonlinear_arith);
        let d = digits(n);
        assert(d.drop_last() =~= digits(n / 10));
        assert(d.last() == digit_of((n % 10) as int));
        assert(value(d) == value(d.drop_last()) * 10 + worth(d.last()));
        assert(all_digits(d)) by {
            assert forall|i: int| 0 <= i < d.len() implies is_digit(#[trigger] d[i]) by {
                if i < d.len() - 1 {
                    assert(d[i] == digits(n / 10)[i]);
                }
            }
        }
    }
}

/// A number written out reads back as itself.
pub proof fn lemma_parse_u64_digits(n: u64)
    ensures
        parse_u64(digits(n as nat)) == Some(n),
{
    lemma_digits(n as nat);
    assert(digits(n as nat)[0] != '+');
}

/// A number written out, sign and all, reads back as itself.
pub proof fn lemma_parse_i32_digits(n: i32)
    ensures
        parse_i32(signed_digits(n as int)) == Some(n),
{
    if n < 0 {
        lemma_digits((-n) as nat);
        assert((seq!['-'] + digits((-n) as nat)).drop_first() =~= digits((-n) as nat));
    } else {
        lemma_digits(n as nat);
        assert(digits(n as nat)[0] != '+');
        assert(digits(n as nat)[0] != '-');
    }
}

/// Digits are worth at least what any run of them at the front is worth.
proof fn lemma_value_grows(s: Seq<char>, i: int)
    requires
        0 <= i <= s.len(),
        all_digits(s),
    ensures
        value(s.take(i)) <= value(s),
    decreases s.len() - i,
{
    if i < s.len() {
        assert(all_digits(s.drop_last()));
        assert(s.drop_last().take(i) =~= s.take(i));
        lemma_value_grows(s.drop_last(), i);
        assert(is_digit(s[s.len() - 1]));
    } else {
        assert(s.take(i) =~= s);
    }
}

/// The digit that stands for `d`.
pub fn digit(d: u64) -> (c: char)
    requires
        d < 10,
    ensures
        c == digit_of(d as int),
{
    match d {
        0 => '0',
        1 => '1',
        2 => '2',
        3 => '3',
        4 => '4',
        5 => '5',
        6 => '6',
        7 => '7',
        8 => '8',
        _ => '9',
    }
}

/// `n` in decimal.
pub fn written(n: u64) -> (s: Vec<char>)
    ensures
        s@ == digits(n as nat),
    decreases n,
{
    if n < 10 {
        let mut s = Vec::new();
        s.push(digit(n));
        s
    } else {
        let mut s = written(n / 10);
        s.push(digit(n % 10));
        s
    }
}

/// `n` in decimal, with its sign.
pub fn written_signed(n: i32) -> (s: Vec<char>)
    ensures
        s@ == signed_digits(n as int),
{
    if n < 0 {
        let far: u64 = if n == i32::MIN {
            0x8000_0000
        } else {
            (-n) as u64
        };
        let mut s = Vec::new();
        s.push('-');
        let d = written(far);
        let mut i: usize = 0;
        while i < d.len()
            invariant
                i <= d.len(),
                s@ == seq!['-'] + d@.take(i as int),
            decreases d.len() - i,
        {
            s.push(d[i]);
            i += 1;
            assert(d@.take(i as int) =~= d@.take(i - 1).push(d@[i - 1]));
        }
        assert(d@.take(d.len() as int) =~= d@);
        s
    } else {
        written(n as u64)
    }
}

/// Digits from position `from` on, read as a number no larger than `most`.
fn unsigned(s: &Vec<char>, from: usize, most: u64) -> (r: Option<u64>)
    requires
        from <= s.len(),
    ensures
        r == (match unsigned_of(s@.skip(from as int), most as nat) {
            Some(v) => Some(v as u64),
            None => None::<u64>,
        }),
{
    let ghost t = s@.skip(from as int);
    if from == s.len() {
        return None;
    }
    let mut acc: u64 = 0;
    let mut i: usize = from;
    while i < s.len()
        invariant
            from <= i <= s.len(),
            t == s@.skip(from as int),
            acc <= most,
            all_digits(t.take(i - from)),
            value(t.take(i - from)) == acc,
        decreases s.len() - i,
    {
        let c = s[i];
        assert(t[i - from] == c);
        if !('0' <= c && c <= '9') {
            assert(!all_digits(t));
            return None;
        }
        let d = (c as u32 - '0' as u32) as u64;
        let next: u128 = (acc as u128) * 10 + (d as u128);
        let ghost front = t.take(i + 1 - from);
        assert(front.drop_last() =~= t.take(i - from));
        assert(front.last() == c);
        assert(all_digits(front)) by {
            assert forall|j: int| 0 <= j < front.len() implies is_digit(#[trigger] front[j]) by {
                if j < front.len() - 1 {
                    assert(front[j] == t.take(i - from)[j]);
                }
            }
        }
        if next > most as u128 {
            proof {
                if all_digits(t) {
                    lemma_value_grows(t, i + 1 - from);
                }
            }
            return None;
        }
        acc = next as u64;
        i += 1;
    }
    assert(t.take(i - from) =~= t);
    Some(acc)
}

/// What `u64::from_str` makes of `s`.
pub fn parsed_u64(s: &Vec<char>) -> (r: Option<u64>)
    ensures
        r == parse_u64(s@),
{
    if s.len() > 0 && s[0] == '+' {
        assert(s@.skip(1) =~= s@.drop_first());
        unsigned(s, 1, u64::MAX)
    } else {
        assert(s@.skip(0) =~= s@);
        unsigned(s, 0, u64::MAX)
    }
}

/// What `u32::from_str` makes of `s`.
pub fn parsed_u32(s: &Vec<char>) -> (r: Option<u32>)
    ensures
        r == parse_u32(s@),
{
    match parsed_u64(s) {
        Some(v) => if v <= u32::MAX as u64 {
            Some(v as u32)
        } else {
            None
        },
        None => None,
    }
}

/// What `i32::from_str` makes of `s`.
pub fn parsed_i32(s: &Vec<char>) -> (r: Option<i32>)
    ensures
        r == parse_i32(s@),
{
    if s.len() > 0 && s[0] == '-' {
        assert(s@.skip(1) =~= s@.drop_first());
        match unsigned(s, 1, 0x8000_0000) {
            Some(v) => if v == 0x8000_0000 {
                Some(i32::MIN)
            } else {
                Some(-(v as i32))
            },
            None => None,
        }
    } else if s.len() > 0 && s[0] == '+' {
        assert(s@.skip(1) =~= s@.drop_first());
        match unsigned(s, 1, i32::MAX as u64) {
            Some(v) => Some(v as i32),
            None => None,
        }
    } else {
        assert(s@.skip(0) =~= s@);
        match unsigned(s, 0, i32::MAX as u64) {
            Some(v) => Some(v as i32),
            None => None,
        }
    }
}

} // verus!
