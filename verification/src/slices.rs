//! Runs of copyable values: filling, cutting, joining and overlaying.
use vstd::prelude::*;

verus! {

/// `x`, `n` times.
pub open spec fn filled<T>(x: T, n: nat) -> Seq<T> {
    Seq::new(n, |i: int| x)
}

/// `s` cut to `n` values, or filled up to `n` with `x`.
pub open spec fn resized<T>(s: Seq<T>, n: nat, x: T) -> Seq<T> {
    if s.len() >= n {
        s.take(n as int)
    } else {
        s + filled(x, (n - s.len()) as nat)
    }
}

/// `s` with `part` laid over it from position `at` on.
pub open spec fn overlaid<T>(s: Seq<T>, at: int, part: Seq<T>) -> Seq<T> {
    s.take(at) + part + s.skip(at + part.len())
}

/// `x`, `n` times.
pub fn fill<T: Copy>(x: T, n: usize) -> (res: Vec<T>)
    ensures
        res@ == filled(x, n as nat),
{
    let mut res: Vec<T> = Vec::new();
    let mut i: usize = 0;
    while i < n
        invariant
            i <= n,
            res@ == filled(x, i as nat),
        decreases n - i,
    {
        res.push(x);
        assert(filled(x, (i + 1) as nat) =~= filled(x, i as nat).push(x));
        i += 1;
    }
    res
}

/// Appends `src[from..to]`.
pub fn extend<T: Copy>(dst: &mut Vec<T>, src: &[T], from: usize, to: usize)
    requires
        from <= to <= src@.len(),
    ensures
        final(dst)@ == old(dst)@ + src@.subrange(from as int, to as int),
{
    let ghost start = dst@;
    let mut i: usize = from;
    assert(dst@ =~= start + src@.subrange(from as int, from as int));
    while i < to
        invariant
            from <= i <= to <= src@.len(),
            dst@ == start + src@.subrange(from as int, i as int),
        decreases to - i,
    {
        dst.push(src[i]);
        assert(dst@ =~= start + src@.subrange(from as int, i + 1));
        i += 1;
    }
}

/// A copy of `src[from..to]`.
pub fn copied<T: Copy>(src: &[T], from: usize, to: usize) -> (res: Vec<T>)
    requires
        from <= to <= src@.len(),
    ensures
        res@ == src@.subrange(from as int, to as int),
{
    let mut res: Vec<T> = Vec::new();
    extend(&mut res, src, from, to);
    assert(res@ =~= src@.subrange(from as int, to as int));
    res
}

/// Lays `src[from..to]` over `dst` from position `at` on.
pub fn overlay<T: Copy>(dst: &mut Vec<T>, at: usize, src: &[T], from: usize, to: usize)
    requires
        from <= to <= src@.len(),
        at + (to - from) <= old(dst)@.len(),
    ensures
        final(dst)@ == overlaid(old(dst)@, at as int, src@.subrange(from as int, to as int)),
        final(dst)@.len() == old(dst)@.len(),
{
    let ghost start = dst@;
    let n: usize = to - from;
    let len: usize = dst.len();
    let mut i: usize = 0;
    assert(dst@ =~= overlaid(start, at as int, src@.subrange(from as int, from as int)));
    while i < n
        invariant
            i <= n,
            n == to - from,
            from <= to <= src@.len(),
            at + n <= len == start.len(),
            dst@.len() == start.len(),
            dst@ == overlaid(start, at as int, src@.subrange(from as int, from + i)),
        decreases n - i,
    {
        let x = src[from + i];
        dst.set(at + i, x);
        assert(dst@ =~= overlaid(start, at as int, src@.subrange(from as int, from + i + 1)));
        i += 1;
    }
}

/// Cuts `v` to `n` values, or fills it up to `n` with `x`.
pub fn resize<T: Copy>(v: &mut Vec<T>, n: usize, x: T)
    ensures
        final(v)@ == resized(old(v)@, n as nat, x),
        final(v)@.len() == n,
{
    let ghost start = v@;
    if v.len() >= n {
        v.truncate(n);
        assert(v@ =~= start.take(n as int));
    } else {
        let rest: usize = n - v.len();
        let more = fill(x, rest);
        let len: usize = more.len();
        extend(v, more.as_slice(), 0, len);
        assert(more@.subrange(0, len as int) =~= more@);
    }
}

/// A part that was laid over reads back from its place, and what stands before
/// and behind it stays.
pub proof fn law_overlaid<T>(s: Seq<T>, at: int, part: Seq<T>)
    requires
        0 <= at,
        at + part.len() <= s.len(),
    ensures
        overlaid(s, at, part).len() == s.len(),
        overlaid(s, at, part).subrange(at, at + part.len()) == part,
        overlaid(s, at, part).take(at) == s.take(at),
        overlaid(s, at, part).skip(at + part.len()) == s.skip(at + part.len()),
{
    let o = overlaid(s, at, part);
    assert(o.subrange(at, at + part.len()) =~= part);
    assert(o.take(at) =~= s.take(at));
    assert(o.skip(at + part.len()) =~= s.skip(at + part.len()));
}

/// What is resized has the asked length, keeps what fits, and is filled up with
/// the given value.
pub proof fn law_resized<T>(s: Seq<T>, n: nat, x: T, i: int)
    requires
        0 <= i < n,
    ensures
        resized(s, n, x).len() == n,
        i < s.len() ==> resized(s, n, x)[i] == s[i],
        i >= s.len() ==> resized(s, n, x)[i] == x,
        filled(x, n).len() == n,
        filled(x, n)[i] == x,
{
}

} // verus!
