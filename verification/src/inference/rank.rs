//! Ranking by score. Scores are floating-point numbers, held by their bits;
//! they are compared as the integers that stand in the same order.
use vstd::prelude::*;

verus! {

/// The bits of positive infinity without its sign.
pub const INFINITE: u32 = 0x7f80_0000;

/// The order of single-precision numbers as that of integers: the two zeros
/// are equal, and what is not a number stands with negative infinity.
pub open spec fn order_of(bits: u32) -> int {
    let magnitude = bits % 0x8000_0000;
    if magnitude > INFINITE {
        -(INFINITE as int)
    } else if bits >= 0x8000_0000 {
        -(magnitude as int)
    } else {
        magnitude as int
    }
}

/// The integer that stands for the order of a single-precision number.
pub fn order_key(bits: u32) -> (res: i64)
    ensures
        res == order_of(bits),
{
    let magnitude: u32 = bits % 0x8000_0000;
    if magnitude > INFINITE {
        -(INFINITE as i64)
    } else if bits >= 0x8000_0000 {
        -(magnitude as i64)
    } else {
        magnitude as i64
    }
}

/// The integers that stand for the order of single-precision numbers.
pub fn order_keys(bits: &[u32]) -> (res: Vec<i64>)
    ensures
        res@ == Seq::new(bits@.len(), |i: int| order_of(bits@[i]) as i64),
{
    let mut res: Vec<i64> = Vec::new();
    let mut i: usize = 0;
    while i < bits.len()
        invariant
            i <= bits@.len(),
            res@ == Seq::new(i as nat, |j: int| order_of(bits@[j]) as i64),
        decreases bits@.len() - i,
    {
        res.push(order_key(bits[i]));
        i += 1;
        assert(res@ =~= Seq::new(i as nat, |j: int| order_of(bits@[j]) as i64));
    }
    res
}

/// Whether position `a` comes before position `b`: by the greater score, and
/// by the place where scores are equal.
pub open spec fn beats(keys: Seq<i64>, a: int, b: int) -> bool {
    keys[a] > keys[b] || (keys[a] == keys[b] && a < b)
}

/// Whether `top` holds the `k` best positions, each once.
pub open spec fn is_top(top: Seq<usize>, keys: Seq<i64>, k: nat) -> bool {
    &&& top.len() == k
    &&& top.no_duplicates()
    &&& forall|i: int| 0 <= i < top.len() ==> #[trigger] top[i] < keys.len()
    &&& forall|i: int, t: usize|
        0 <= i < top.len() && t < keys.len() && !top.contains(t) ==> #[trigger] beats(
            keys,
            top[i] as int,
            t as int,
        )
}

/// How many of `k` asked for can be had of `n`: one at least, where there is
/// one.
pub open spec fn top_count(k: nat, n: nat) -> nat {
    if n == 0 {
        0
    } else if k < 1 {
        1
    } else if k < n {
        k
    } else {
        n
    }
}

/// The best `k` positions, best first.
pub fn best_first(keys: &Vec<i64>, k: usize) -> (res: Vec<usize>)
    ensures
        is_top(res@, keys@, top_count(k as nat, keys@.len())),
        forall|i: int, j: int|
            0 <= i < j < res@.len() ==> #[trigger] beats(
                keys@,
                res@[i] as int,
                res@[j] as int,
            ),
{
    let n: usize = keys.len();
    let want: usize = if n == 0 {
        0
    } else if k < 1 {
        1
    } else if k < n {
        k
    } else {
        n
    };
    let mut out: Vec<usize> = Vec::new();
    while out.len() < want
        invariant
            n == keys@.len(),
            want <= n,
            out@.len() <= want,
            is_top(out@, keys@, out@.len()),
            forall|i: int, j: int|
                0 <= i < j < out@.len() ==> #[trigger] beats(
                    keys@,
                    out@[i] as int,
                    out@[j] as int,
                ),
        decreases want - out@.len(),
    {
        let ghost before = out@;
        let best = next_best(keys, &out);
        out.push(best);
        assert(is_top(out@, keys@, out@.len())) by {
            assert forall|i: int, j: int|
                0 <= i < out@.len() && 0 <= j < out@.len() && i != j implies out@[i] != out@[j] by {
                if i == before.len() {
                    assert(before.contains(before[j]));
                } else if j == before.len() {
                    assert(before.contains(before[i]));
                }
            }
            assert forall|i: int, t: usize|
                0 <= i < out@.len() && t < keys@.len() && !out@.contains(t) implies #[trigger] beats(
                keys@,
                out@[i] as int,
                t as int,
            ) by {
                if before.contains(t) {
                    let j = choose|j: int| 0 <= j < before.len() && before[j] == t;
                    assert(out@[j] == t);
                }
                assert(out@[before.len() as int] == best);
            }
        }
    }
    out
}

/// The best position that is not taken yet.
fn next_best(keys: &Vec<i64>, taken: &Vec<usize>) -> (res: usize)
    requires
        is_top(taken@, keys@, taken@.len()),
        taken@.len() < keys@.len(),
    ensures
        res < keys@.len(),
        !taken@.contains(res),
        forall|t: usize|
            t < keys@.len() && !taken@.contains(t) && t != res ==> #[trigger] beats(
                keys@,
                res as int,
                t as int,
            ),
        forall|i: int| 0 <= i < taken@.len() ==> #[trigger] beats(keys@, taken@[i] as int, res as int),
{
    let n: usize = keys.len();
    let mut best: Option<usize> = None;
    let mut t: usize = 0;
    while t < n
        invariant
            t <= n == keys@.len(),
            match best {
                Some(b) => {
                    &&& b < t
                    &&& !taken@.contains(b)
                    &&& forall|u: usize|
                        u < t && !taken@.contains(u) && u != b ==> #[trigger] beats(
                            keys@,
                            b as int,
                            u as int,
                        )
                },
                None => forall|u: usize| u < t ==> #[trigger] taken@.contains(u),
            },
        decreases n - t,
    {
        let ghost was = best;
        if !is_in(taken, t) {
            best = match best {
                Some(b) => if keys[t] > keys[b] {
                    Some(t)
                } else {
                    Some(b)
                },
                None => Some(t),
            };
        }
        proof {
            if let Some(b) = best {
                assert forall|u: usize|
                    u < t + 1 && !taken@.contains(u) && u != b implies #[trigger] beats(
                    keys@,
                    b as int,
                    u as int,
                ) by {
                    if let Some(w) = was {
                        if u != w && u < t {
                            assert(beats(keys@, w as int, u as int));
                        }
                    }
                }
            }
        }
        t += 1;
    }
    match best {
        Some(b) => b,
        None => {
            proof {
                // All positions would be taken, and they are fewer.
                let all = Seq::new(n as nat, |i: int| i as usize);
                assert(all.no_duplicates());
                all.unique_seq_to_set();
                taken@.unique_seq_to_set();
                assert(all.to_set().subset_of(taken@.to_set())) by {
                    assert forall|u: usize| all.to_set().contains(u) implies taken@.to_set().contains(
                        u,
                    ) by {
                        let i = choose|i: int| 0 <= i < all.len() && all[i] == u;
                        assert(taken@.contains(u));
                    }
                }
                vstd::set_lib::lemma_len_subset(all.to_set(), taken@.to_set());
            }
            0
        },
    }
}

fn is_in(v: &Vec<usize>, x: usize) -> (res: bool)
    ensures
        res == v@.contains(x),
{
    let mut i: usize = 0;
    while i < v.len()
        invariant
            i <= v@.len(),
            forall|j: int| 0 <= j < i ==> v@[j] != x,
        decreases v@.len() - i,
    {
        if v[i] == x {
            return true;
        }
        i += 1;
    }
    false
}

/// The best `k` positions, in the order in which they stand.
pub fn topk_in_order(keys: &Vec<i64>, k: usize) -> (res: Vec<usize>)
    ensures
        is_top(res@, keys@, top_count(k as nat, keys@.len())),
        forall|i: int, j: int| 0 <= i < j < res@.len() ==> #[trigger] res@[i] < #[trigger] res@[j],
{
    let top = best_first(keys, k);
    let n: usize = keys.len();
    let mut out: Vec<usize> = Vec::new();
    let mut t: usize = 0;
    while t < n
        invariant
            t <= n == keys@.len(),
            forall|i: int| 0 <= i < out@.len() ==> #[trigger] out@[i] < t && top@.contains(out@[i]),
            forall|i: int, j: int|
                0 <= i < j < out@.len() ==> #[trigger] out@[i] < #[trigger] out@[j],
            forall|u: usize| u < t && #[trigger] top@.contains(u) ==> out@.contains(u),
        decreases n - t,
    {
        let ghost before = out@;
        if is_in(&top, t) {
            out.push(t);
        }
        assert forall|u: usize| u < t + 1 && #[trigger] top@.contains(u) implies out@.contains(
            u,
        ) by {
            if u < t {
                let i = choose|i: int| 0 <= i < before.len() && before[i] == u;
                assert(out@[i] == u);
            } else {
                assert(out@[before.len() as int] == u);
            }
        }
        t += 1;
    }
    proof {
        assert(out@.no_duplicates());
        out@.unique_seq_to_set();
        top@.unique_seq_to_set();
        assert(out@.to_set() =~= top@.to_set()) by {
            assert forall|u: usize| out@.to_set().contains(u) <==> top@.to_set().contains(u) by {
                if out@.contains(u) {
                    let i = choose|i: int| 0 <= i < out@.len() && out@[i] == u;
                    assert(top@.contains(out@[i]));
                }
                if top@.contains(u) {
                    let i = choose|i: int| 0 <= i < top@.len() && top@[i] == u;
                    assert(top@[i] < keys@.len());
                }
            }
        }
        assert forall|i: int, u: usize|
            0 <= i < out@.len() && u < keys@.len() && !out@.contains(u) implies #[trigger] beats(
            keys@,
            out@[i] as int,
            u as int,
        ) by {
            assert(top@.contains(out@[i]));
            let j = choose|j: int| 0 <= j < top@.len() && top@[j] == out@[i];
            assert(!top@.contains(u));
            assert(beats(keys@, top@[j] as int, u as int));
        }
    }
    out
}

/// The two zeros rank alike, and a number of the other sign ranks apart from
/// any number that is not zero.
pub proof fn law_order_of_signs(bits: u32)
    requires
        bits < 0x8000_0000,
        bits <= INFINITE,
    ensures
        order_of((bits + 0x8000_0000) as u32) == -order_of(bits),
        order_of(bits) >= 0,
        order_of(bits) == 0 <==> bits == 0,
{
}

/// There is one top only: two choices of the same number hold the same
/// positions.
pub proof fn law_top_is_unique(a: Seq<usize>, b: Seq<usize>, keys: Seq<i64>, k: nat)
    requires
        is_top(a, keys, k),
        is_top(b, keys, k),
    ensures
        a.to_set() == b.to_set(),
{
    a.unique_seq_to_set();
    b.unique_seq_to_set();
    if !a.to_set().subset_of(b.to_set()) {
        let x = choose|x: usize| a.to_set().contains(x) && !b.to_set().contains(x);
        let i = choose|i: int| 0 <= i < a.len() && a[i] == x;
        if b.to_set().subset_of(a.to_set()) {
            assert(b.to_set().subset_of(a.to_set().remove(x)));
            vstd::set_lib::lemma_len_subset(b.to_set(), a.to_set().remove(x));
            assert(false);
        }
        let y = choose|y: usize| b.to_set().contains(y) && !a.to_set().contains(y);
        let j = choose|j: int| 0 <= j < b.len() && b[j] == y;
        assert(a[i] < keys.len() && b[j] < keys.len());
        assert(beats(keys, a[i] as int, y as int));
        assert(beats(keys, b[j] as int, x as int));
        assert(false);
    }
    if !(a.to_set() =~= b.to_set()) {
        let y = choose|y: usize| b.to_set().contains(y) && !a.to_set().contains(y);
        assert(a.to_set().subset_of(b.to_set().remove(y)));
        vstd::set_lib::lemma_len_subset(a.to_set(), b.to_set().remove(y));
    }
}

/// Numbers rank as they compare: of two that are not negative the greater, of
/// two that are negative the smaller in magnitude, and what is no number ranks
/// with the lowest.
pub proof fn law_order_of(a: u32, b: u32)
    ensures
        a < b <= INFINITE ==> order_of(a) < order_of(b),
        0x8000_0000 <= a < b <= 0x8000_0000 + INFINITE ==> order_of(a) > order_of(b),
        a <= INFINITE && 0x8000_0000 < b <= 0x8000_0000 + INFINITE ==> order_of(a) > order_of(b),
        order_of(0) == 0 && order_of(0x8000_0000) == 0,
        INFINITE < a < 0x8000_0000 ==> order_of(a) == order_of((0x8000_0000 + INFINITE) as u32)
            && order_of(a) <= order_of(b),
{
}

/// The greater score comes first, and of equal ones that in front.
pub proof fn law_beats(keys: Seq<i64>, a: int, b: int)
    requires
        0 <= a < keys.len(),
        0 <= b < keys.len(),
    ensures
        keys[a] > keys[b] ==> beats(keys, a, b) && !beats(keys, b, a),
        keys[a] == keys[b] && a < b ==> beats(keys, a, b) && !beats(keys, b, a),
        beats(keys, a, b) ==> keys[a] >= keys[b],
{
}

/// What is picked scores no lower than anything that is left, and as many are
/// picked as were asked for, as far as there are any, and one at least.
pub proof fn law_top(top: Seq<usize>, keys: Seq<i64>, k: nat, i: int, t: usize)
    requires
        is_top(top, keys, top_count(k, keys.len())),
        0 <= i < top.len(),
        t < keys.len(),
        !top.contains(t),
    ensures
        keys[top[i] as int] >= keys[t as int],
        1 <= k <= keys.len() ==> top.len() == k,
        k > keys.len() ==> top.len() == keys.len(),
        k == 0 ==> top.len() == 1,
        top_count(k, 0) == 0,
{
    assert(beats(keys, top[i] as int, t as int));
}

} // verus!
