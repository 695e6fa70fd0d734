//! Patterns that texts are searched for: which of them can be searched for in
//! every text.
use vstd::prelude::*;

use crate::text::chars_of;

verus! {

/// How long a pattern may be.
pub const LONGEST_PATTERN: usize = 1000;

/// How many counts a pattern may have; each is below a hundred.
pub const MOST_COUNTS: usize = 3;

/// Whether there is a digit at a place.
pub open spec fn digit_at(s: Seq<char>, i: int) -> bool {
    0 <= i < s.len() && '0' <= s[i] <= '9'
}

/// How many digits there are from a place on, up to three.
pub open spec fn digits_at(s: Seq<char>, i: int) -> int {
    if !digit_at(s, i) {
        0
    } else if !digit_at(s, i + 1) {
        1
    } else if !digit_at(s, i + 2) {
        2
    } else {
        3
    }
}

/// Whether a character stands at a place.
pub open spec fn stands_at(s: Seq<char>, i: int, c: char) -> bool {
    0 <= i < s.len() && s[i] == c
}

/// Whether a count follows the brace before a place.
pub open spec fn counts_at(s: Seq<char>, i: int) -> bool {
    digit_at(s, i) || stands_at(s, i, ',')
}

/// Whether the count there is small.
pub open spec fn count_fine(s: Seq<char>, i: int) -> bool {
    counts_at(s, i) ==> {
        let a = i + digits_at(s, i);
        let b = a + 1 + digits_at(s, a + 1);
        &&& digits_at(s, i) <= 2
        &&& stands_at(s, a, '}') || (stands_at(s, a, ',') && digits_at(s, a + 1) <= 2 && stands_at(
            s,
            b,
            '}',
        ))
    }
}

/// Whether a group is of a plain sort: one that looks around, that keeps what
/// it matched, that has a name, or that sets one flag.
pub open spec fn group_fine(s: Seq<char>, i: int) -> bool {
    &&& 0 <= i < s.len()
    &&& {
        ||| s[i] == ':' || s[i] == '=' || s[i] == '!' || s[i] == '<' || s[i] == '>'
        ||| (s[i] == 'i' || s[i] == 'm' || s[i] == 's') && (stands_at(s, i + 1, ':') || stands_at(
            s,
            i + 1,
            ')',
        ))
    }
}

/// Whether an escape refers to what was matched before, or moves its start.
pub open spec fn refers_back(c: char) -> bool {
    c == 'k' || c == 'K' || '0' <= c <= '9'
}

/// Whether a place of a pattern asks for nothing unusual.
pub open spec fn place_fine(s: Seq<char>, i: int) -> bool {
    &&& (s[i] == '\\' && i + 1 < s.len() ==> !refers_back(s[i + 1]))
    &&& (s[i] == '(' && stands_at(s, i + 1, '?') ==> group_fine(s, i + 2))
    &&& (s[i] == '{' ==> count_fine(s, i + 1))
}

/// How many of the first `n` characters begin a count.
pub open spec fn counts(s: Seq<char>, n: nat) -> nat
    decreases n,
{
    if n == 0 {
        0
    } else {
        counts(s, (n - 1) as nat) + if s[n - 1] == '{' && counts_at(s, n as int) {
            1nat
        } else {
            0
        }
    }
}

/// Whether a pattern can be searched for in every text: it is short, its counts
/// are few and small, and it does not refer back.
pub open spec fn pattern_fine(s: Seq<char>) -> bool {
    &&& s.len() <= LONGEST_PATTERN
    &&& counts(s, s.len()) <= MOST_COUNTS
    &&& forall|i: int| 0 <= i < s.len() ==> #[trigger] place_fine(s, i)
}

/// Whether a character may make what it follows optional, or stands for
/// something that may be empty.
pub open spec fn loose(s: Seq<char>, i: int) -> bool {
    ||| s[i] == '|' || s[i] == '*' || s[i] == '?' || s[i] == '('
    ||| s[i] == '{' && !(i + 1 < s.len() && '1' <= s[i + 1] <= '9')
}

/// Whether a pattern is seen to match some character each time: it begins with
/// one, and nothing of it is optional.
pub open spec fn never_empty(s: Seq<char>) -> bool {
    &&& s.len() > 0
    &&& {
        ||| s[0] == ' ' || 'a' <= s[0] <= 'z' || 'A' <= s[0] <= 'Z' || '0' <= s[0] <= '9'
        ||| s[0] == '\\' && stands_at(s, 1, 's')
    }
    &&& forall|i: int| 0 <= i < s.len() ==> !#[trigger] loose(s, i)
}

fn is_digit_at(v: &Vec<char>, i: usize) -> (res: bool)
    ensures
        res == digit_at(v@, i as int),
{
    i < v.len() && '0' <= v[i] && v[i] <= '9'
}

fn does_stand_at(v: &Vec<char>, i: usize, c: char) -> (res: bool)
    ensures
        res == stands_at(v@, i as int, c),
{
    i < v.len() && v[i] == c
}

fn count_digits_at(v: &Vec<char>, i: usize) -> (res: usize)
    requires
        i <= LONGEST_PATTERN + 4,
    ensures
        res == digits_at(v@, i as int),
{
    if !is_digit_at(v, i) {
        0
    } else if !is_digit_at(v, i + 1) {
        1
    } else if !is_digit_at(v, i + 2) {
        2
    } else {
        3
    }
}

fn does_count_at(v: &Vec<char>, i: usize) -> (res: bool)
    ensures
        res == counts_at(v@, i as int),
{
    is_digit_at(v, i) || does_stand_at(v, i, ',')
}

fn is_count_fine(v: &Vec<char>, i: usize) -> (res: bool)
    requires
        i <= LONGEST_PATTERN,
    ensures
        res == count_fine(v@, i as int),
{
    if !does_count_at(v, i) {
        return true;
    }
    let first: usize = count_digits_at(v, i);
    if first > 2 {
        return false;
    }
    let a: usize = i + first;
    if does_stand_at(v, a, '}') {
        return true;
    }
    let second: usize = count_digits_at(v, a + 1);
    does_stand_at(v, a, ',') && second <= 2 && does_stand_at(v, a + 1 + second, '}')
}

fn is_group_fine(v: &Vec<char>, i: usize) -> (res: bool)
    requires
        i <= LONGEST_PATTERN + 1,
    ensures
        res == group_fine(v@, i as int),
{
    if i >= v.len() {
        return false;
    }
    let c = v[i];
    c == ':' || c == '=' || c == '!' || c == '<' || c == '>' || ((c == 'i' || c == 'm' || c == 's')
        && (does_stand_at(v, i + 1, ':') || does_stand_at(v, i + 1, ')')))
}

fn does_refer_back(c: char) -> (res: bool)
    ensures
        res == refers_back(c),
{
    c == 'k' || c == 'K' || ('0' <= c && c <= '9')
}

fn is_place_fine(v: &Vec<char>, i: usize) -> (res: bool)
    requires
        i < v@.len() <= LONGEST_PATTERN,
    ensures
        res == place_fine(v@, i as int),
{
    let c = v[i];
    if c == '\\' {
        i + 1 >= v.len() || !does_refer_back(v[i + 1])
    } else if c == '(' {
        !does_stand_at(v, i + 1, '?') || is_group_fine(v, i + 2)
    } else if c == '{' {
        is_count_fine(v, i + 1)
    } else {
        true
    }
}


/// Whether a pattern can be searched for in every text.
pub fn is_pattern_fine(s: &str) -> (res: bool)
    ensures
        res == pattern_fine(s@),
{
    let v = chars_of(s);
    if v.len() > LONGEST_PATTERN {
        return false;
    }
    let mut counted: usize = 0;
    let mut i: usize = 0;
    while i < v.len()
        invariant
            v@ == s@,
            i <= v@.len() <= LONGEST_PATTERN,
            counted == counts(v@, i as nat),
            counted <= i,
            forall|j: int| 0 <= j < i ==> #[trigger] place_fine(v@, j),
        decreases v@.len() - i,
    {
        if !is_place_fine(&v, i) {
            return false;
        }
        if v[i] == '{' && does_count_at(&v, i + 1) {
            counted += 1;
        }
        i += 1;
    }
    counted <= MOST_COUNTS
}

fn is_loose(v: &Vec<char>, i: usize) -> (res: bool)
    requires
        i < v@.len(),
    ensures
        res == loose(v@, i as int),
{
    let c = v[i];
    if c == '{' {
        !(i < v.len() - 1 && '1' <= v[i + 1] && v[i + 1] <= '9')
    } else {
        c == '|' || c == '*' || c == '?' || c == '('
    }
}

/// Whether a pattern is seen to match some character each time.
pub fn is_never_empty(s: &str) -> (res: bool)
    ensures
        res == never_empty(s@),
{
    let v = chars_of(s);
    if v.len() == 0 {
        return false;
    }
    let c = v[0];
    let plain = c == ' ' || ('a' <= c && c <= 'z') || ('A' <= c && c <= 'Z') || ('0' <= c && c
        <= '9') || (c == '\\' && does_stand_at(&v, 1, 's'));
    if !plain {
        return false;
    }
    let mut i: usize = 0;
    while i < v.len()
        invariant
            v@ == s@,
            i <= v@.len(),
            forall|j: int| 0 <= j < i ==> !#[trigger] loose(v@, j),
        decreases v@.len() - i,
    {
        if is_loose(&v, i) {
            return false;
        }
        i += 1;
    }
    true
}

} // verus!
