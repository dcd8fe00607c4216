//! Pure geometry of the Moore neighborhood: the eight offsets around a
//! cell, coordinate arithmetic, and the lemmas the stepping proofs need.
//!
//! Coordinates are pairs of `i32`. Adding a unit offset wraps at the ends
//! of the `i32` range, so a neighbor is defined for every coordinate.

use vstd::prelude::*;

verus! {

/// The eight Moore-neighborhood offsets in a fixed order: row-major,
/// the cell's own offset `(0, 0)` excluded.
pub open spec fn offsets() -> Seq<(int, int)> {
    seq![
        (-1int, -1int),
        (-1int, 0int),
        (-1int, 1int),
        (0int, -1int),
        (0int, 1int),
        (1int, -1int),
        (1int, 0int),
        (1int, 1int),
    ]
}

/// An `i32` coordinate component plus a unit offset, wrapping at the ends
/// of the `i32` range.
pub open spec fn wrap_add(a: i32, d: int) -> i32
    recommends
        -1 <= d <= 1,
{
    if a == i32::MAX && d == 1 {
        i32::MIN
    } else if a == i32::MIN && d == -1 {
        i32::MAX
    } else {
        (a + d) as i32
    }
}

/// The `k`-th Moore neighbor of `p`.
pub open spec fn nbr(p: (i32, i32), k: int) -> (i32, i32)
    recommends
        0 <= k < 8,
{
    (wrap_add(p.0, offsets()[k].0), wrap_add(p.1, offsets()[k].1))
}

/// The `k`-th element of the neighborhood of `c`: the eight neighbors
/// first, then `c` itself.
pub open spec fn neighborhood_at(c: (i32, i32), k: int) -> (i32, i32)
    recommends
        0 <= k < 9,
{
    if k < 8 {
        nbr(c, k)
    } else {
        c
    }
}

/// `p` lies in the neighborhood of `c`: it is `c` itself or one of the
/// eight Moore neighbors of `c`.
pub open spec fn in_neighborhood(c: (i32, i32), p: (i32, i32)) -> bool {
    exists|k: int| 0 <= k < 9 && p == neighborhood_at(c, k)
}

/// Every offset has components in `{-1, 0, 1}` and is not `(0, 0)`.
pub proof fn lemma_offset_bounds(k: int)
    requires
        0 <= k < 8,
    ensures
        -1 <= offsets()[k].0 <= 1,
        -1 <= offsets()[k].1 <= 1,
        !(offsets()[k].0 == 0 && offsets()[k].1 == 0),
{
    assert(offsets()[0] == (-1int, -1int));
    assert(offsets()[1] == (-1int, 0int));
    assert(offsets()[2] == (-1int, 1int));
    assert(offsets()[3] == (0int, -1int));
    assert(offsets()[4] == (0int, 1int));
    assert(offsets()[5] == (1int, -1int));
    assert(offsets()[6] == (1int, 0int));
    assert(offsets()[7] == (1int, 1int));
}

/// The offset table is antisymmetric: entry `7 - k` is the negation of
/// entry `k`.
pub proof fn lemma_offset_antisymmetric(k: int)
    requires
        0 <= k < 8,
    ensures
        offsets()[7 - k].0 == -offsets()[k].0,
        offsets()[7 - k].1 == -offsets()[k].1,
{
    assert(offsets()[0] == (-1int, -1int));
    assert(offsets()[1] == (-1int, 0int));
    assert(offsets()[2] == (-1int, 1int));
    assert(offsets()[3] == (0int, -1int));
    assert(offsets()[4] == (0int, 1int));
    assert(offsets()[5] == (1int, -1int));
    assert(offsets()[6] == (1int, 0int));
    assert(offsets()[7] == (1int, 1int));
}

/// Wrapping addition of a unit offset is undone by the opposite offset.
pub proof fn lemma_wrap_add_inverse(a: i32, d: int)
    requires
        -1 <= d <= 1,
    ensures
        wrap_add(wrap_add(a, d), -d) == a,
{
}

/// The neighbor relation is symmetric: the `7 - k`-th neighbor of the
/// `k`-th neighbor of `p` is `p` again.
pub proof fn lemma_nbr_symmetric(p: (i32, i32), k: int)
    requires
        0 <= k < 8,
    ensures
        nbr(nbr(p, k), 7 - k) == p,
{
    lemma_offset_bounds(k);
    lemma_offset_antisymmetric(k);
    lemma_wrap_add_inverse(p.0, offsets()[k].0);
    lemma_wrap_add_inverse(p.1, offsets()[k].1);
}

/// The `k`-th Moore-neighborhood offset, as a pair of `i32` components.
pub fn offset_at(k: usize) -> (r: (i32, i32))
    requires
        k < 8,
    ensures
        (r.0 as int, r.1 as int) == offsets()[k as int],
        -1 <= r.0 <= 1,
        -1 <= r.1 <= 1,
{
    match k {
        0 => (-1, -1),
        1 => (-1, 0),
        2 => (-1, 1),
        3 => (0, -1),
        4 => (0, 1),
        5 => (1, -1),
        6 => (1, 0),
        _ => (1, 1),
    }
}

/// An `i32` plus a unit offset, wrapping at the ends of the `i32` range.
pub fn wrap_add_unit(a: i32, d: i32) -> (r: i32)
    requires
        -1 <= d <= 1,
    ensures
        r == wrap_add(a, d as int),
{
    if a == i32::MAX && d == 1 {
        i32::MIN
    } else if a == i32::MIN && d == -1 {
        i32::MAX
    } else {
        a + d
    }
}

} // verus!
