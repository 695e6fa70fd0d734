//! The whole numbers behind the weights of a model that is made up, not
//! loaded. Scaled and shifted, they are the floats of its matrices.
use vstd::prelude::*;

verus! {

/// Entry (`row`, `col`) of the made-up embedding, in thousandths.
pub open spec fn lattice_entry(row: int, col: int) -> int {
    (row * 131 + col * 17) % 1000
}

/// The made-up embedding, row by row.
pub fn lattice(rows: u32, cols: usize) -> (res: Vec<u32>)
    requires
        rows * cols <= usize::MAX,
    ensures
        res@.len() == rows * cols,
        forall|i: int, j: int|
            0 <= i < rows && 0 <= j < cols ==> #[trigger] res@[i * cols + j] == lattice_entry(
                i,
                j,
            ),
{
    let mut out: Vec<u32> = Vec::new();
    let mut i: u32 = 0;
    while i < rows
        invariant
            i <= rows,
            out@.len() == i * cols,
            forall|r: int, c: int|
                0 <= r < i && 0 <= c < cols ==> #[trigger] out@[r * cols + c] == lattice_entry(
                    r,
                    c,
                ),
        decreases rows - i,
    {
        let mut j: usize = 0;
        while j < cols
            invariant
                i < rows,
                j <= cols,
                out@.len() == i * cols + j,
                forall|r: int, c: int|
                    0 <= r < i && 0 <= c < cols ==> #[trigger] out@[r * cols + c]
                        == lattice_entry(r, c),
                forall|c: int|
                    0 <= c < j ==> #[trigger] out@[i * cols + c] == lattice_entry(i as int, c),
            decreases cols - j,
        {
            let at: u128 = (i as u128) * 131 + (j as u128) * 17;
            let ghost was = out@;
            out.push((at % 1000) as u32);
            assert forall|r: int, c: int|
                0 <= r < i && 0 <= c < cols implies #[trigger] out@[r * cols + c]
                == lattice_entry(r, c) by {
                assert(0 <= r * cols + c < i * cols) by (nonlinear_arith)
                    requires
                        0 <= r < i,
                        0 <= c < cols,
                ;
                assert(out@[r * cols + c] == was[r * cols + c]);
            }
            j += 1;
        }
        assert((i + 1) * cols == i * cols + cols) by (nonlinear_arith);
        i += 1;
    }
    out
}

/// The state that follows `state` in the generator of made-up projections.
pub open spec fn following(state: u64) -> u64 {
    ((state * 6364136223846793005 + 1) % 0x1_0000_0000_0000_0000) as u64
}

/// The state after `n` steps.
pub open spec fn stepped(state: u64, n: nat) -> u64
    decreases n,
{
    if n == 0 {
        state
    } else {
        following(stepped(state, (n - 1) as nat))
    }
}

/// The first `n` draws from a seed: the upper 31 bits of each state.
pub fn draws(seed: u64, n: usize) -> (res: Vec<u32>)
    ensures
        res@.len() == n,
        forall|i: int| 0 <= i < n ==> #[trigger] res@[i] == stepped(seed, (i + 1) as nat) / 0x2_0000_0000,
{
    let mut out: Vec<u32> = Vec::new();
    let mut state: u64 = seed;
    let mut i: usize = 0;
    while i < n
        invariant
            i <= n,
            out@.len() == i,
            state == stepped(seed, i as nat),
            forall|k: int|
                0 <= k < i ==> #[trigger] out@[k] == stepped(seed, (k + 1) as nat) / 0x2_0000_0000,
        decreases n - i,
    {
        state = state.wrapping_mul(6364136223846793005).wrapping_add(1);
        proof {
            let s = stepped(seed, i as nat);
            let m = 0x1_0000_0000_0000_0000int;
            vstd::arithmetic::div_mod::lemma_add_mod_noop(s * 6364136223846793005, 1, m);
            assert(state == following(s));
            assert(stepped(seed, (i + 1) as nat) == following(s));
        }
        out.push((state / 0x2_0000_0000) as u32);
        i += 1;
    }
    out
}

/// The made-up embedding starts at nothing and grows by fixed amounts from row
/// to row and from column to column, around in thousandths.
pub proof fn law_lattice(row: int, col: int)
    requires
        row >= 0,
        col >= 0,
    ensures
        0 <= lattice_entry(row, col) < 1000,
        lattice_entry(0, 0) == 0,
        lattice_entry(row + 1, col) == (lattice_entry(row, col) + 131) % 1000,
        lattice_entry(row, col + 1) == (lattice_entry(row, col) + 17) % 1000,
{
}

/// A generator that went some steps goes on as one that starts there, and its
/// steps are those of one linear rule.
pub proof fn law_generator(state: u64, n: nat, m: nat)
    ensures
        stepped(state, 0) == state,
        stepped(stepped(state, n), m) == stepped(state, n + m),
        following(0) == 1,
        state < u64::MAX ==> following((state + 1) as u64) == (following(state)
            + 6364136223846793005) % 0x1_0000_0000_0000_0000,
    decreases m,
{
    if m > 0 {
        law_generator(state, n, (m - 1) as nat);
    }
    vstd::arithmetic::div_mod::lemma_add_mod_noop(
        state * 6364136223846793005 + 1,
        6364136223846793005,
        0x1_0000_0000_0000_0000,
    );
    vstd::arithmetic::div_mod::lemma_add_mod_noop(
        following(state) as int,
        6364136223846793005,
        0x1_0000_0000_0000_0000,
    );
}

} // verus!
