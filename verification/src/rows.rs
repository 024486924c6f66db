//! Row arithmetic of a subdivided triangular face.
//!
//! Row `r` of a face owns the local indices `r * r .. (r + 1) * (r + 1)`, so the
//! row of an index is the integer square root of that index.

use vstd::prelude::*;

verus! {

/// The row that owns local index `i`: the largest `r` with `r * r <= i`.
pub open spec fn row_of(i: nat) -> nat
    decreases i,
{
    if i == 0 {
        0
    } else {
        let r = row_of((i - 1) as nat);
        if (r + 1) * (r + 1) <= i {
            r + 1
        } else {
            r
        }
    }
}

/// The position of local index `i` within its row, counted from the row's first tile.
pub open spec fn col_of(i: nat) -> nat {
    (i - row_of(i) * row_of(i)) as nat
}

/// `(r + 1)^2 = r^2 + 2r + 1`.
pub proof fn lemma_square_succ(r: int)
    ensures
        (r + 1) * (r + 1) == r * r + 2 * r + 1,
{
    assert((r + 1) * (r + 1) == r * r + 2 * r + 1) by (nonlinear_arith);
}

/// Squaring is monotone on the naturals.
pub proof fn lemma_square_monotone(a: int, b: int)
    requires
        0 <= a <= b,
    ensures
        a * a <= b * b,
{
    assert(a * a <= b * b) by (nonlinear_arith)
        requires
            0 <= a <= b,
    ;
}

/// `row_of(i)` is the integer square root of `i`.
pub proof fn lemma_row_bounds(i: nat)
    ensures
        row_of(i) * row_of(i) <= i < (row_of(i) + 1) * (row_of(i) + 1),
    decreases i,
{
    let q = row_of(i) as int;
    if i == 0 {
        assert(q == 0);
        assert(q * q == 0 && (q + 1) * (q + 1) == 1) by (nonlinear_arith)
            requires
                q == 0,
        ;
    } else {
        let r = row_of((i - 1) as nat) as int;
        lemma_row_bounds((i - 1) as nat);
        lemma_square_succ(r);
        lemma_square_succ(r + 1);
        if (r + 1) * (r + 1) <= i {
            assert(q == r + 1);
            assert(q * q == (r + 1) * (r + 1) && (q + 1) * (q + 1) == (r + 1 + 1) * (r + 1 + 1))
                by (nonlinear_arith)
                requires
                    q == r + 1,
            ;
        } else {
            assert(q == r);
            assert(q * q == r * r && (q + 1) * (q + 1) == (r + 1) * (r + 1)) by (nonlinear_arith)
                requires
                    q == r,
            ;
        }
    }
}

/// Only one `r` satisfies `r * r <= i < (r + 1) * (r + 1)`.
pub proof fn lemma_row_unique(i: nat, r: nat)
    requires
        r * r <= i < (r + 1) * (r + 1),
    ensures
        row_of(i) == r,
{
    let q = row_of(i);
    lemma_row_bounds(i);
    if q < r {
        lemma_square_monotone(q as int + 1, r as int);
    } else if r < q {
        lemma_square_monotone(r as int + 1, q as int);
    }
}

/// A row `r` holds `2r + 1` indices, and index `r * r + c` is the `c`-th of them.
pub proof fn lemma_row_col(r: nat, c: nat)
    requires
        c <= 2 * r,
    ensures
        row_of(r * r + c) == r,
        col_of(r * r + c) == c,
{
    lemma_square_succ(r as int);
    lemma_row_unique(r * r + c, r);
}

/// The column of an index never exceeds twice its row.
pub proof fn lemma_col_bound(i: nat)
    ensures
        col_of(i) <= 2 * row_of(i),
        i == row_of(i) * row_of(i) + col_of(i),
{
    lemma_row_bounds(i);
    lemma_square_succ(row_of(i) as int);
}

/// An index below `n * n` lies in a row below `n`.
pub proof fn lemma_row_below(i: nat, n: nat)
    requires
        i < n * n,
    ensures
        row_of(i) < n,
{
    lemma_row_bounds(i);
    if row_of(i) >= n {
        lemma_square_monotone(n as int, row_of(i) as int);
    }
}

/// Integer square root: the row that owns local index `i`.
pub fn isqrt(i: usize) -> (r: usize)
    ensures
        r == row_of(i as nat),
        r * r <= i < (r + 1) * (r + 1),
{
    let target: u128 = i as u128;
    let mut lo: u128 = 0;
    let mut hi: u128 = target + 1;
    proof {
        assert(target < hi * hi) by (nonlinear_arith)
            requires
                hi == target + 1,
                target >= 0,
        ;
    }
    while hi - lo > 1
        invariant
            target == i,
            lo < hi <= target + 1,
            lo * lo <= target < hi * hi,
        decreases hi - lo,
    {
        let mid: u128 = lo + (hi - lo) / 2;
        proof {
            lemma_square_monotone(mid as int, target as int);
            assert(target * target <= u128::MAX) by (nonlinear_arith)
                requires
                    0 <= target <= 0xffff_ffff_ffff_ffff,
            ;
        }
        if mid * mid <= target {
            lo = mid;
        } else {
            hi = mid;
        }
    }
    proof {
        assert(hi == lo + 1);
        lemma_row_unique(i as nat, lo as nat);
    }
    lo as usize
}

} // verus!
