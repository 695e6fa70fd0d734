//! Compiled tables of replacements, as some tokenizers have them: which of them
//! lead nowhere outside.
//!
//! A table is written in base 64. It holds the size of a trie in bytes, the
//! units of the trie, and the replacements as one text. All numbers have four
//! bytes, the lowest first.
use vstd::prelude::*;

use crate::text::chars_of;

verus! {

/// What a character stands for in base 64.
pub open spec fn sextet(c: char) -> Option<u8> {
    if 'A' <= c <= 'Z' {
        Some((c as u8 - 'A' as u8) as u8)
    } else if 'a' <= c <= 'z' {
        Some((c as u8 - 'a' as u8 + 26) as u8)
    } else if '0' <= c <= '9' {
        Some((c as u8 - '0' as u8 + 52) as u8)
    } else if c == '+' {
        Some(62u8)
    } else if c == '/' {
        Some(63u8)
    } else {
        None
    }
}

/// The length of a text without the one or two signs that pad it.
pub open spec fn unpadded(s: Seq<char>) -> nat {
    if s.len() > 0 && s.last() == '=' {
        if s.len() > 1 && s[s.len() - 2] == '=' {
            (s.len() - 2) as nat
        } else {
            (s.len() - 1) as nat
        }
    } else {
        s.len()
    }
}

/// The byte at a place of what `v` stands for.
pub open spec fn byte_at(v: Seq<u8>, i: int) -> u8 {
    let q = i / 3 * 4;
    if i % 3 == 0 {
        (v[q] * 4 + v[q + 1] / 16) as u8
    } else if i % 3 == 1 {
        (v[q + 1] % 16 * 16 + v[q + 2] / 4) as u8
    } else {
        (v[q + 2] % 4 * 64 + v[q + 3]) as u8
    }
}

/// Whether a text may stand for bytes by its length: it is not padded at all,
/// or padded to fours.
pub open spec fn length_fine(s: Seq<char>) -> bool {
    unpadded(s) % 4 != 1 && (unpadded(s) == s.len() || s.len() % 4 == 0)
}

/// The bits of the last character that no byte takes up.
pub open spec fn left_over(v: Seq<u8>) -> u8 {
    if v.len() % 4 == 2 {
        v.last() % 16
    } else if v.len() % 4 == 3 {
        v.last() % 4
    } else {
        0
    }
}

/// The bytes that a text in base 64 stands for; bits that are left over have to
/// be zero.
pub open spec fn decoded(s: Seq<char>) -> Option<Seq<u8>> {
    let n = unpadded(s);
    let v = Seq::new(n, |i: int| sextet(s[i]).unwrap());
    if length_fine(s) && (forall|i: int| 0 <= i < n ==> (#[trigger] sextet(s[i])) is Some)
        && left_over(v) == 0 {
        Some(Seq::new(n * 3 / 4, |i: int| byte_at(v, i)))
    } else {
        None
    }
}

/// The number at a place.
pub open spec fn word_at(b: Seq<u8>, i: int) -> u64 {
    (b[i] + b[i + 1] * 0x100 + b[i + 2] * 0x1_0000 + b[i + 3] * 0x100_0000) as u64
}

/// How many units a trie has.
pub open spec fn units_in(b: Seq<u8>) -> u64 {
    word_at(b, 0) / 4
}

/// A unit of the trie.
pub open spec fn unit(b: Seq<u8>, p: int) -> u64 {
    word_at(b, 4 + 4 * p)
}

/// Where the children of a unit are.
pub open spec fn target(p: u64, u: u64) -> u64 {
    let offset = if u / 0x200 % 2 == 1 {
        (u / 0x400 * 0x100) as u64
    } else {
        u / 0x400
    };
    p ^ offset
}

/// Whether the unit at `t` points to the start of a character of the text, or
/// to its end.
pub open spec fn value_fine(b: Seq<u8>, t: u64) -> bool {
    let start = 4 + 4 * units_in(b) + unit(b, t as int) % 0x8000_0000;
    start <= b.len() && (start == b.len() || b[start] < 0x80 || b[start] >= 0xc0)
}

/// Whether a unit, if a search goes on from it, leads to units of the trie, and
/// to a replacement where it has one.
pub open spec fn unit_fine(b: Seq<u8>, p: int) -> bool {
    let u = unit(b, p);
    (p == 0 || (u < 0x8000_0000 && u % 0x100 != 0)) ==> {
        let t = target(p as u64, u);
        &&& (t | 0xff) < units_in(b)
        &&& t < units_in(b)
        &&& (u / 0x100 % 2 == 1 ==> value_fine(b, t))
    }
}

/// Whether every search in a table stays inside it, and its replacements are a
/// text.
pub open spec fn table_fine(b: Seq<u8>) -> bool {
    &&& b.len() >= 4
    &&& 0 < units_in(b)
    &&& 4 + 4 * units_in(b) <= b.len()
    &&& vstd::utf8::valid_utf8(b.subrange(4 + 4 * units_in(b), b.len() as int))
    &&& forall|p: int| 0 <= p < units_in(b) ==> #[trigger] unit_fine(b, p)
}

/// Whether a text is such a table.
pub open spec fn charsmap_fine(s: Seq<char>) -> bool {
    decoded(s) matches Some(b) && table_fine(b)
}

fn sextet_of(c: char) -> (res: Option<u8>)
    ensures
        res == sextet(c),
        res matches Some(x) ==> x < 64,
{
    if 'A' <= c && c <= 'Z' {
        Some(c as u8 - 65)
    } else if 'a' <= c && c <= 'z' {
        Some(c as u8 - 97 + 26)
    } else if '0' <= c && c <= '9' {
        Some(c as u8 - 48 + 52)
    } else if c == '+' {
        Some(62)
    } else if c == '/' {
        Some(63)
    } else {
        None
    }
}

fn unpadded_len(v: &Vec<char>) -> (res: usize)
    ensures
        res == unpadded(v@),
        res <= v@.len(),
{
    let n = v.len();
    if n > 0 && v[n - 1] == '=' {
        if n > 1 && v[n - 2] == '=' {
            n - 2
        } else {
            n - 1
        }
    } else {
        n
    }
}

fn decode(s: &str) -> (res: Option<Vec<u8>>)
    ensures
        match res {
            Some(b) => decoded(s@) == Some(b@),
            None => decoded(s@) is None,
        },
{
    let cs = chars_of(s);
    let n: usize = unpadded_len(&cs);
    if n % 4 == 1 || (n != cs.len() && cs.len() % 4 != 0) {
        return None;
    }
    let mut v: Vec<u8> = Vec::new();
    let mut i: usize = 0;
    while i < n
        invariant
            cs@ == s@,
            i <= n <= cs@.len(),
            n == unpadded(cs@),
            length_fine(cs@),
            v@.len() == i,
            forall|j: int| 0 <= j < i ==> (#[trigger] sextet(cs@[j])) is Some,
            forall|j: int| 0 <= j < i ==> #[trigger] v@[j] < 64 && sextet(cs@[j]) == Some(v@[j]),
        decreases n - i,
    {
        match sextet_of(cs[i]) {
            Some(x) => v.push(x),
            None => {
                return None;
            },
        }
        i += 1;
    }
    let ghost all = Seq::new(n as nat, |i: int| sextet(s@[i]).unwrap());
    assert(v@ =~= all);
    if (n % 4 == 2 && v[n - 1] % 16 != 0) || (n % 4 == 3 && v[n - 1] % 4 != 0) {
        return None;
    }
    let mut b: Vec<u8> = Vec::new();
    let mut q: usize = 0;
    while q < n
        invariant
            v@ == all,
            v@.len() == n,
            n % 4 != 1,
            q <= n,
            q == n ==> b@.len() == n * 3 / 4,
            q < n ==> q % 4 == 0 && b@.len() == q / 4 * 3,
            forall|j: int| 0 <= j < n ==> #[trigger] v@[j] < 64,
            forall|j: int| 0 <= j < b@.len() ==> #[trigger] b@[j] == byte_at(all, j),
        decreases n - q,
    {
        let ghost k = b@.len() as int;
        assert(k / 3 * 4 == q && k % 3 == 0);
        b.push(v[q] * 4 + v[q + 1] / 16);
        let left: usize = n - q;
        if left > 2 {
            assert((k + 1) / 3 * 4 == q && (k + 1) % 3 == 1);
            b.push(v[q + 1] % 16 * 16 + v[q + 2] / 4);
        }
        if left > 3 {
            assert((k + 2) / 3 * 4 == q && (k + 2) % 3 == 2);
            b.push(v[q + 2] % 4 * 64 + v[q + 3]);
        }
        if left <= 4 {
            q = n;
        } else {
            q += 4;
        }
    }
    assert(b@ =~= Seq::new((n * 3 / 4) as nat, |i: int| byte_at(all, i)));
    Some(b)
}

fn word_of(b: &Vec<u8>, i: usize) -> (res: u64)
    requires
        i + 4 <= b@.len(),
    ensures
        res == word_at(b@, i as int),
        res <= 0xffff_ffff,
{
    let _ = b.len();
    b[i] as u64 + b[i + 1] as u64 * 0x100 + b[i + 2] as u64 * 0x1_0000 + b[i + 3] as u64
        * 0x100_0000
}

fn target_of(p: u64, u: u64) -> (res: u64)
    requires
        u <= 0xffff_ffff,
    ensures
        res == target(p, u),
{
    let offset: u64 = if u / 0x200 % 2 == 1 {
        u / 0x400 * 0x100
    } else {
        u / 0x400
    };
    p ^ offset
}

fn is_unit_fine(b: &Vec<u8>, n: u64, p: u64) -> (res: bool)
    requires
        p < n,
        n == units_in(b@),
        n <= 0xffff_ffff,
        4 + 4 * n <= b@.len(),
    ensures
        res == unit_fine(b@, p as int),
{
    let u: u64 = word_of(b, 4 + 4 * p as usize);
    if p != 0 && (u >= 0x8000_0000 || u % 0x100 == 0) {
        return true;
    }
    let t: u64 = target_of(p, u);
    if (t | 0xff) >= n || t >= n {
        return false;
    }
    if u / 0x100 % 2 == 0 {
        return true;
    }
    let value: u64 = word_of(b, 4 + 4 * t as usize) % 0x8000_0000;
    let start: u64 = 4 + 4 * n + value;
    if start >= b.len() as u64 {
        return start == b.len() as u64;
    }
    let first: u8 = b[start as usize];
    first < 0x80 || first >= 0xc0
}

/// `std::str::from_utf8`: whether bytes are a text in UTF-8.
#[verifier::external_body]
fn is_utf8(b: &[u8]) -> (res: bool)
    ensures
        res == vstd::utf8::valid_utf8(b@),
{
    std::str::from_utf8(b).is_ok()
}

/// Whether a text is a table in which every search stays inside, and whose
/// replacements are a text.
pub fn is_charsmap_fine(s: &str) -> (res: bool)
    ensures
        res == charsmap_fine(s@),
{
    let b = match decode(s) {
        Some(b) => b,
        None => {
            return false;
        },
    };
    if b.len() < 4 {
        return false;
    }
    let n: u64 = word_of(&b, 0) / 4;
    if n == 0 || 4 + 4 * n > b.len() as u64 {
        return false;
    }
    let start: usize = 4 + 4 * n as usize;
    if !is_utf8(vstd::slice::slice_subrange(b.as_slice(), start, b.len())) {
        return false;
    }
    let mut p: u64 = 0;
    while p < n
        invariant
            decoded(s@) == Some(b@),
            p <= n,
            n == units_in(b@),
            n <= 0xffff_ffff,
            4 + 4 * n <= b@.len(),
            vstd::utf8::valid_utf8(b@.subrange(4 + 4 * n, b@.len() as int)),
            forall|j: int| 0 <= j < p ==> #[trigger] unit_fine(b@, j),
        decreases n - p,
    {
        if !is_unit_fine(&b, n, p) {
            return false;
        }
        p += 1;
    }
    true
}

} // verus!
