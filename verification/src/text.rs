//! Character-level text utilities shared by the rest of the library:
//! conversions between `str` and `Vec<char>`, substring search, and
//! decimal formatting and parsing.

use vstd::prelude::*;

verus! {

/// Collect the characters of a string slice into a vector.
pub fn chars_of(s: &str) -> (v: Vec<char>)
    ensures
        v@ == s@,
{
    let n = s.unicode_len();
    let mut v: Vec<char> = Vec::new();
    let mut i: usize = 0;
    while i < n
        invariant
            i <= n,
            n == s@.len(),
            v@ == s@.subrange(0, i as int),
        decreases n - i,
    {
        v.push(s.get_char(i));
        i += 1;
    }
    proof {
        assert(v@ =~= s@);
    }
    v
}

/// Build an owned string from a vector of characters.
///
/// Relies on `core::iter::Iterator::collect` for `String`: the collected
/// string holds exactly the characters of the iterator, in order.
#[verifier::external_body]
pub fn string_from_chars(v: &Vec<char>) -> (s: String)
    ensures
        s@ == v@,
{
    v.iter().collect()
}

/// Whether `pat` occurs in `s` starting at position `i`.
pub open spec fn matches_at(s: Seq<char>, i: int, pat: Seq<char>) -> bool {
    0 <= i && i + pat.len() <= s.len() && s.subrange(i, i + pat.len() as int) == pat
}

/// Whether `pat` occurs anywhere in `s`.
pub open spec fn contains_seq(s: Seq<char>, pat: Seq<char>) -> bool {
    exists|i: int| matches_at(s, i, pat)
}

/// Whether the characters of `pat` appear at position `i` of `s`.
pub fn check_match_at(s: &Vec<char>, i: usize, pat: &Vec<char>) -> (r: bool)
    requires
        i <= s@.len(),
    ensures
        r == matches_at(s@, i as int, pat@),
{
    let n = s.len();
    let m = pat.len();
    if m > n - i {
        proof {
            assert(!matches_at(s@, i as int, pat@));
        }
        return false;
    }
    let mut k: usize = 0;
    while k < m
        invariant
            k <= m,
            m == pat@.len(),
            n == s@.len(),
            i + m <= n,
            forall|j: int| 0 <= j < k ==> s@[i + j] == pat@[j],
        decreases m - k,
    {
        if s[i + k] != pat[k] {
            proof {
                assert(s@.subrange(i as int, i + pat@.len() as int)[k as int] != pat@[k as int]);
            }
            return false;
        }
        k += 1;
    }
    proof {
        assert(s@.subrange(i as int, i + pat@.len() as int) =~= pat@);
    }
    true
}

/// Find the first occurrence of `pat` in `s` at or after `from`.
pub fn find_seq(s: &Vec<char>, from: usize, pat: &Vec<char>) -> (r: Option<usize>)
    requires
        from <= s@.len(),
    ensures
        match r {
            Some(i) => {
                &&& from <= i <= s@.len()
                &&& matches_at(s@, i as int, pat@)
                &&& forall|j: int| from <= j < i ==> !matches_at(s@, j, pat@)
            },
            None => forall|j: int| from <= j ==> !matches_at(s@, j, pat@),
        },
{
    let mut i: usize = from;
    while i < s.len()
        invariant
            from <= i <= s@.len(),
            forall|j: int| from <= j < i ==> !matches_at(s@, j, pat@),
        decreases s@.len() - i,
    {
        if check_match_at(s, i, pat) {
            return Some(i);
        }
        i += 1;
    }
    if check_match_at(s, s.len(), pat) {
        return Some(s.len());
    }
    None
}

/// A pattern inside the left half of a concatenation stays inside it.
pub proof fn lemma_contains_concat_left(a: Seq<char>, b: Seq<char>, pat: Seq<char>)
    requires
        contains_seq(a, pat),
    ensures
        contains_seq(a + b, pat),
{
    let i = choose|i: int| matches_at(a, i, pat);
    assert((a + b).subrange(i, i + pat.len() as int) =~= pat);
    assert(matches_at(a + b, i, pat));
}

/// A pattern inside the right half of a concatenation stays inside it.
pub proof fn lemma_contains_concat_right(a: Seq<char>, b: Seq<char>, pat: Seq<char>)
    requires
        contains_seq(b, pat),
    ensures
        contains_seq(a + b, pat),
{
    let i = choose|i: int| matches_at(b, i, pat);
    assert((a + b).subrange(a.len() + i, a.len() + i + pat.len() as int) =~= pat);
    assert(matches_at(a + b, a.len() + i, pat));
}

/// The decimal digit character for a value below ten.
pub open spec fn digit_char(d: int) -> char {
    if d == 0 { '0' } else if d == 1 { '1' } else if d == 2 { '2' } else if d == 3 { '3' }
    else if d == 4 { '4' } else if d == 5 { '5' } else if d == 6 { '6' } else if d == 7 { '7' }
    else if d == 8 { '8' } else { '9' }
}

/// The decimal rendering of a natural number, most significant digit first.
pub open spec fn dec_of(n: nat) -> Seq<char>
    decreases n,
{
    if n < 10 {
        seq![digit_char(n as int)]
    } else {
        dec_of(n / 10) + seq![digit_char((n % 10) as int)]
    }
}

/// Format an unsigned number in decimal.
pub fn u64_to_dec(n: u64) -> (v: Vec<char>)
    ensures
        v@ == dec_of(n as nat),
    decreases n,
{
    let digit: char = match n % 10 {
        0 => '0',
        1 => '1',
        2 => '2',
        3 => '3',
        4 => '4',
        5 => '5',
        6 => '6',
        7 => '7',
        8 => '8',
        _ => '9',
    };
    if n < 10 {
        let mut v: Vec<char> = Vec::new();
        v.push(digit);
        proof {
            assert(v@ =~= dec_of(n as nat));
        }
        v
    } else {
        let mut v = u64_to_dec(n / 10);
        v.push(digit);
        proof {
            assert(v@ =~= dec_of(n as nat));
        }
        v
    }
}

/// The numeric value of a decimal digit character, or `None`.
pub open spec fn digit_val(c: char) -> Option<int> {
    if c == '0' { Some(0int) } else if c == '1' { Some(1int) } else if c == '2' { Some(2int) }
    else if c == '3' { Some(3int) } else if c == '4' { Some(4int) } else if c == '5' { Some(5int) }
    else if c == '6' { Some(6int) } else if c == '7' { Some(7int) } else if c == '8' { Some(8int) }
    else if c == '9' { Some(9int) } else { None }
}

/// Whether every character of `s` is a decimal digit.
pub open spec fn all_digits(s: Seq<char>) -> bool {
    forall|i: int| 0 <= i < s.len() ==> digit_val(s[i]) is Some
}

/// The value of a sequence of decimal digits, most significant first.
pub open spec fn dec_val(s: Seq<char>) -> int
    decreases s.len(),
{
    if s.len() == 0 {
        0
    } else {
        dec_val(s.drop_last()) * 10 + digit_val(s.last()).unwrap_or(0)
    }
}

/// The numeric value of a decimal digit character.
pub fn digit_of(c: char) -> (r: Option<u8>)
    ensures
        match r {
            Some(d) => digit_val(c) == Some(d as int),
            None => digit_val(c) is None,
        },
{
    match c {
        '0' => Some(0),
        '1' => Some(1),
        '2' => Some(2),
        '3' => Some(3),
        '4' => Some(4),
        '5' => Some(5),
        '6' => Some(6),
        '7' => Some(7),
        '8' => Some(8),
        '9' => Some(9),
        _ => None,
    }
}

/// Parse a non-empty run of decimal digits as a `u32`, rejecting other
/// strings and values above `u32::MAX`.
pub fn parse_u32_dec(s: &Vec<char>) -> (r: Option<u32>)
    ensures
        match r {
            Some(n) => s@.len() > 0 && all_digits(s@) && dec_val(s@) == n as int,
            None => s@.len() == 0 || !all_digits(s@) || dec_val(s@) > u32::MAX,
        },
{
    if s.len() == 0 {
        return None;
    }
    let mut acc: u64 = 0;
    let mut i: usize = 0;
    while i < s.len()
        invariant
            i <= s@.len(),
            all_digits(s@.subrange(0, i as int)),
            acc as int == dec_val(s@.subrange(0, i as int)),
            acc <= u32::MAX as u64,
        decreases s@.len() - i,
    {
        let d = match digit_of(s[i]) {
            Some(d) => d,
            None => {
                return None;
            },
        };
        let ghost pre = s@.subrange(0, i as int);
        acc = acc * 10 + d as u64;
        i += 1;
        proof {
            assert(s@.subrange(0, i as int).drop_last() =~= pre);
            assert(s@.subrange(0, i as int).last() == s@[i - 1]);
        }
        if acc > u32::MAX as u64 {
            proof {
                lemma_dec_val_exceeds(s@, i as int);
            }
            return None;
        }
    }
    proof {
        assert(s@.subrange(0, s@.len() as int) =~= s@);
    }
    Some(acc as u32)
}

/// Once a digit-run prefix exceeds `u32::MAX`, so does the whole run.
proof fn lemma_dec_val_exceeds(s: Seq<char>, i: int)
    requires
        0 < i <= s.len(),
        dec_val(s.subrange(0, i)) > u32::MAX,
    ensures
        all_digits(s) ==> dec_val(s) > u32::MAX,
    decreases s.len() - i,
{
    if i == s.len() {
        assert(s.subrange(0, i) =~= s);
    } else if all_digits(s) {
        let x = dec_val(s.subrange(0, i));
        assert(s.subrange(0, i + 1).drop_last() =~= s.subrange(0, i));
        assert(s.subrange(0, i + 1).last() == s[i]);
        assert(digit_val(s[i]).unwrap_or(0) >= 0);
        assert(x * 10 > u32::MAX) by (nonlinear_arith)
            requires
                x > u32::MAX,
        ;
        assert(dec_val(s.subrange(0, i + 1)) > u32::MAX);
        lemma_dec_val_exceeds(s, i + 1);
    }
}

} // verus!
