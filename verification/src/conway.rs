//! The population engine: the set of live cells, liveness queries, and
//! the generation step.
//!
//! A `Conway` value owns the set of currently live coordinates. Stepping
//! never mutates a population: `next` reads an existing one and returns a
//! brand-new value holding the next generation, so a reader of the old
//! generation is never disturbed.

use crate::neighborhood::{
    in_neighborhood, lemma_nbr_symmetric, lemma_offset_bounds, nbr, neighborhood_at, offset_at,
    wrap_add_unit,
};
use vstd::prelude::*;

verus! {

/// The number of live cells among the first `k` of the eight Moore
/// neighbors of `p`, in the live set `s`.
pub open spec fn live_neighbors_upto(s: Set<(i32, i32)>, p: (i32, i32), k: int) -> nat
    recommends
        0 <= k <= 8,
    decreases k,
{
    if k <= 0 {
        0
    } else {
        live_neighbors_upto(s, p, k - 1) + (if s.contains(nbr(p, k - 1)) {
            1nat
        } else {
            0nat
        })
    }
}

/// The number of live cells among the eight Moore neighbors of `p`.
pub open spec fn live_neighbor_count(s: Set<(i32, i32)>, p: (i32, i32)) -> nat {
    live_neighbors_upto(s, p, 8)
}

/// The survival/birth rule: a cell is alive in the next generation iff it
/// has exactly three live neighbors, or it is alive now and has exactly
/// two.
pub open spec fn rule_alive(alive: bool, count: nat) -> bool {
    count == 3 || (alive && count == 2)
}

/// The next generation of the live set `s`: exactly the coordinates that
/// the rule declares alive, judged against `s` uniformly.
pub open spec fn step_spec(s: Set<(i32, i32)>) -> Set<(i32, i32)> {
    Set::new(|p: (i32, i32)| rule_alive(s.contains(p), live_neighbor_count(s, p)))
}

/// The state of one cell: present in the live set or absent from it.
#[derive(Debug, PartialEq, Eq, Structural)]
pub enum Cell {
    Alive,
    Dead,
}

impl Cell {
    /// The cell is the live state.
    pub open spec fn is_alive(self) -> bool {
        self == Cell::Alive
    }

    /// Applies the survival/birth rule to this cell's current state and
    /// its live-neighbor count, yielding the state one generation later.
    pub fn evolve(&self, alive_neighbor_count: usize) -> (r: Cell)
        ensures
            r == (if rule_alive(self.is_alive(), alive_neighbor_count as nat) {
                Cell::Alive
            } else {
                Cell::Dead
            }),
    {
        match (self, alive_neighbor_count) {
            (Cell::Alive, 2) => Cell::Alive,
            (Cell::Alive, 3) => Cell::Alive,
            (Cell::Dead, 3) => Cell::Alive,
            _ => Cell::Dead,
        }
    }
}

/// Whether the vector holds the coordinate.
fn vec_contains(v: &Vec<(i32, i32)>, p: (i32, i32)) -> (r: bool)
    ensures
        r == v@.contains(p),
{
    let mut i: usize = 0;
    while i < v.len()
        invariant
            i <= v@.len(),
            forall|j: int| 0 <= j < i ==> v@[j] != p,
        decreases v@.len() - i,
    {
        if v[i].0 == p.0 && v[i].1 == p.1 {
            assert(v@[i as int] == p);
            return true;
        }
        i += 1;
    }
    false
}

/// The automaton state: the set of currently live coordinates. A cell is
/// dead exactly when its coordinate is absent.
pub struct Conway {
    grid: Vec<(i32, i32)>,
}

impl View for Conway {
    type V = Set<(i32, i32)>;

    /// The live set this population represents.
    closed spec fn view(&self) -> Set<(i32, i32)> {
        self.grid@.to_set()
    }
}

impl Conway {
    /// The backing vector holds each live coordinate exactly once.
    #[verifier::type_invariant]
    spec fn wf(self) -> bool {
        self.grid@.no_duplicates()
    }

    /// An all-dead population.
    fn new() -> (r: Conway)
        ensures
            r@ == Set::<(i32, i32)>::empty(),
    {
        let r = Conway { grid: Vec::new() };
        proof {
            assert(r@ =~= Set::<(i32, i32)>::empty());
        }
        r
    }

    /// Builds the population whose live set is exactly the set of
    /// distinct coordinates in the sequence; duplicates collapse.
    pub fn with_iter(coordinates: Vec<(i32, i32)>) -> (r: Conway)
        ensures
            r@ == coordinates@.to_set(),
    {
        let mut grid: Vec<(i32, i32)> = Vec::new();
        let mut i: usize = 0;
        while i < coordinates.len()
            invariant
                i <= coordinates@.len(),
                grid@.no_duplicates(),
                forall|p: (i32, i32)| grid@.contains(p) ==> coordinates@.contains(p),
                forall|j: int| 0 <= j < i ==> grid@.contains(#[trigger] coordinates@[j]),
            decreases coordinates@.len() - i,
        {
            let q = coordinates[i];
            if !vec_contains(&grid, q) {
                let ghost old_grid = grid@;
                grid.push(q);
                proof {
                    assert(forall|p: (i32, i32)| grid@.contains(p) ==> old_grid.contains(p) || p == q);
                    assert(forall|j: int| 0 <= j < old_grid.len() ==> grid@[j] == old_grid[j]);
                    assert(forall|p: (i32, i32)| old_grid.contains(p) ==> grid@.contains(p));
                    assert(grid@[old_grid.len() as int] == q);
                    assert(grid@.contains(q));
                }
            }
            i += 1;
        }
        let mut conway = Conway::new();
        conway.grid = grid;
        proof {
            assert(conway@ =~= coordinates@.to_set());
        }
        conway
    }

    /// Builds a population from a slice of live coordinates; duplicates
    /// collapse.
    pub fn with_cells(points: &[(i32, i32)]) -> (r: Conway)
        ensures
            r@ == points@.to_set(),
    {
        let mut v: Vec<(i32, i32)> = Vec::new();
        let mut i: usize = 0;
        while i < points.len()
            invariant
                i <= points@.len(),
                v@ == points@.subrange(0, i as int),
            decreases points@.len() - i,
        {
            v.push(points[i]);
            proof {
                assert(v@ =~= points@.subrange(0, i + 1));
            }
            i += 1;
        }
        proof {
            assert(v@ =~= points@);
        }
        Conway::with_iter(v)
    }

    /// The number of live cells among the eight Moore neighbors of
    /// `point`, judged against this population.
    pub fn count_alive_neighbors(&self, point: (i32, i32)) -> (r: usize)
        ensures
            r == live_neighbor_count(self@, point),
    {
        let mut count: usize = 0;
        let mut k: usize = 0;
        while k < 8
            invariant
                k <= 8,
                count <= k,
                count == live_neighbors_upto(self@, point, k as int),
            decreases 8 - k,
        {
            let d = offset_at(k);
            let q = (wrap_add_unit(point.0, d.0), wrap_add_unit(point.1, d.1));
            assert(q == nbr(point, k as int));
            if vec_contains(&self.grid, q) {
                count += 1;
            }
            k += 1;
        }
        count
    }

    /// The state of the cell at `point`: `Alive` iff it is in the live
    /// set.
    pub fn get(&self, point: (i32, i32)) -> (r: Cell)
        ensures
            r == (if self@.contains(point) {
                Cell::Alive
            } else {
                Cell::Dead
            }),
    {
        if vec_contains(&self.grid, point) {
            Cell::Alive
        } else {
            Cell::Dead
        }
    }

    /// Computes the next generation and returns it as a new population,
    /// leaving this one untouched. The result's live set is exactly what
    /// the survival/birth rule, judged uniformly against this
    /// population, declares alive.
    pub fn next(&self) -> (r: Conway)
        ensures
            r@ == step_spec(self@),
    {
        let mut out: Vec<(i32, i32)> = Vec::new();
        let mut i: usize = 0;
        while i < self.grid.len()
            invariant
                i <= self.grid@.len(),
                out@.no_duplicates(),
                forall|p: (i32, i32)| #[trigger] out@.contains(p) ==> step_spec(self@).contains(p),
                forall|j: int, k: int|
                    0 <= j < i && 0 <= k < 9 && step_spec(self@).contains(
                        #[trigger] neighborhood_at(self.grid@[j], k),
                    ) ==> out@.contains(neighborhood_at(self.grid@[j], k)),
            decreases self.grid@.len() - i,
        {
            let c = self.grid[i];
            let mut k: usize = 0;
            while k < 9
                invariant
                    i < self.grid@.len(),
                    c == self.grid@[i as int],
                    k <= 9,
                    out@.no_duplicates(),
                    forall|p: (i32, i32)| #[trigger] out@.contains(p) ==> step_spec(self@).contains(p),
                    forall|j: int, m: int|
                        0 <= j < i && 0 <= m < 9 && step_spec(self@).contains(
                            #[trigger] neighborhood_at(self.grid@[j], m),
                        ) ==> out@.contains(neighborhood_at(self.grid@[j], m)),
                    forall|m: int|
                        0 <= m < k && step_spec(self@).contains(#[trigger] neighborhood_at(c, m))
                            ==> out@.contains(neighborhood_at(c, m)),
                decreases 9 - k,
            {
                let q = if k < 8 {
                    let d = offset_at(k);
                    (wrap_add_unit(c.0, d.0), wrap_add_unit(c.1, d.1))
                } else {
                    c
                };
                assert(q == neighborhood_at(c, k as int));
                let alive_count = self.count_alive_neighbors(q);
                if self.get(q).evolve(alive_count) == Cell::Alive {
                    assert(step_spec(self@).contains(q));
                    if !vec_contains(&out, q) {
                        let ghost old_out = out@;
                        out.push(q);
                        proof {
                            assert(forall|j: int|
                                0 <= j < old_out.len() ==> out@[j] == old_out[j]);
                            assert(forall|p: (i32, i32)|
                                old_out.contains(p) ==> out@.contains(p));
                            assert(out@[old_out.len() as int] == q);
                            assert(out@.contains(q));
                            assert forall|p: (i32, i32)| #[trigger] out@.contains(p)
                                implies step_spec(self@).contains(p) by {
                                let idx = choose|idx: int|
                                    0 <= idx < out@.len() && out@[idx] == p;
                                if idx < old_out.len() {
                                    assert(old_out[idx] == p);
                                    assert(old_out.contains(p));
                                } else {
                                    assert(p == q);
                                }
                            }
                        }
                    }
                } else {
                    assert(!step_spec(self@).contains(q));
                }
                k += 1;
            }
            i += 1;
        }
        let r = Conway { grid: out };
        proof {
            assert forall|p: (i32, i32)| step_spec(self@).contains(p) implies out@.contains(
                p,
            ) by {
                lemma_next_alive_is_candidate(self@, p);
                let c = choose|c: (i32, i32)| #[trigger] self@.contains(c) && in_neighborhood(c, p);
                let k = choose|k: int| 0 <= k < 9 && p == neighborhood_at(c, k);
                let j = choose|j: int| 0 <= j < self.grid@.len() && self.grid@[j] == c;
                assert(self.grid@.contains(c));
                assert(self.grid@[j] == c);
                assert(step_spec(self@).contains(neighborhood_at(self.grid@[j], k)));
            }
            assert(r@ =~= step_spec(self@));
        }
        r
    }

    /// The eight Moore neighbors of `point`, in the fixed offset order.
    pub fn get_neighbors(&self, point: (i32, i32)) -> (r: Vec<(i32, i32)>)
        ensures
            r@.len() == 8,
            forall|k: int| 0 <= k < 8 ==> r@[k] == nbr(point, k),
    {
        let mut r: Vec<(i32, i32)> = Vec::new();
        let mut k: usize = 0;
        while k < 8
            invariant
                k <= 8,
                r@.len() == k,
                forall|m: int| 0 <= m < k ==> r@[m] == nbr(point, m),
            decreases 8 - k,
        {
            let d = offset_at(k);
            r.push((wrap_add_unit(point.0, d.0), wrap_add_unit(point.1, d.1)));
            k += 1;
        }
        r
    }

    /// The nine-cell neighborhood of `point`: the eight Moore neighbors
    /// in the fixed offset order, then `point` itself.
    pub fn get_neighborhood(&self, point: (i32, i32)) -> (r: Vec<(i32, i32)>)
        ensures
            r@.len() == 9,
            forall|k: int| 0 <= k < 9 ==> r@[k] == neighborhood_at(point, k),
    {
        let mut r = self.get_neighbors(point);
        r.push(point);
        r
    }
}

/// A coordinate with no live cell among its first `k` neighbors has a
/// partial count of zero.
proof fn lemma_upto_all_dead(s: Set<(i32, i32)>, p: (i32, i32), k: int)
    requires
        0 <= k <= 8,
        forall|m: int| 0 <= m < k ==> !s.contains(#[trigger] nbr(p, m)),
    ensures
        live_neighbors_upto(s, p, k) == 0,
    decreases k,
{
    if k > 0 {
        lemma_upto_all_dead(s, p, k - 1);
    }
}

/// A positive partial count points at a live neighbor.
proof fn lemma_upto_positive(s: Set<(i32, i32)>, p: (i32, i32), k: int)
    requires
        0 <= k <= 8,
        live_neighbors_upto(s, p, k) > 0,
    ensures
        exists|m: int| 0 <= m < k && s.contains(#[trigger] nbr(p, m)),
    decreases k,
{
    if k > 0 {
        if s.contains(nbr(p, k - 1)) {
            assert(0 <= k - 1 < k && s.contains(nbr(p, k - 1)));
        } else {
            lemma_upto_positive(s, p, k - 1);
        }
    }
}

/// Emptiness is absorbing: the next generation of the empty live set is
/// empty again.
pub proof fn lemma_empty_is_absorbing()
    ensures
        step_spec(Set::<(i32, i32)>::empty()) == Set::<(i32, i32)>::empty(),
{
    assert forall|p: (i32, i32)| !step_spec(Set::<(i32, i32)>::empty()).contains(p) by {
        lemma_upto_all_dead(Set::<(i32, i32)>::empty(), p, 8);
    }
    assert(step_spec(Set::<(i32, i32)>::empty()) =~= Set::<(i32, i32)>::empty());
}

/// Stepping is deterministic: two live sets with the same members have
/// the same next generation.
pub proof fn lemma_step_deterministic(s1: Set<(i32, i32)>, s2: Set<(i32, i32)>)
    requires
        forall|p: (i32, i32)| s1.contains(p) <==> s2.contains(p),
    ensures
        step_spec(s1) == step_spec(s2),
{
    assert(s1 =~= s2);
}

/// Construction dedups: two seed sequences with the same members, however
/// often repeated, build populations with the same live set.
pub proof fn lemma_construction_dedups(c1: Seq<(i32, i32)>, c2: Seq<(i32, i32)>)
    requires
        forall|p: (i32, i32)| c1.contains(p) <==> c2.contains(p),
    ensures
        c1.to_set() == c2.to_set(),
{
    assert(c1.to_set() =~= c2.to_set());
}

/// Locality: a live set confined to a bounding box has no influence, one
/// step later, outside the box grown by one cell on every side. The box
/// must sit strictly inside the `i32` range, so that no neighbor of a
/// confined cell wraps around.
pub proof fn lemma_locality(
    s: Set<(i32, i32)>,
    row_min: int,
    row_max: int,
    col_min: int,
    col_max: int,
    p: (i32, i32),
)
    requires
        i32::MIN < row_min,
        row_max < i32::MAX,
        i32::MIN < col_min,
        col_max < i32::MAX,
        forall|q: (i32, i32)|
            s.contains(q) ==> row_min <= q.0 <= row_max && col_min <= q.1 <= col_max,
        !(row_min - 1 <= p.0 <= row_max + 1 && col_min - 1 <= p.1 <= col_max + 1),
    ensures
        !step_spec(s).contains(p),
{
    assert(!s.contains(p));
    assert forall|m: int| 0 <= m < 8 implies !s.contains(#[trigger] nbr(p, m)) by {
        if s.contains(nbr(p, m)) {
            let q = nbr(p, m);
            lemma_nbr_symmetric(p, m);
            lemma_offset_bounds(7 - m);
            assert(p == nbr(q, 7 - m));
            assert(row_min - 1 <= p.0 <= row_max + 1 && col_min - 1 <= p.1 <= col_max + 1);
        }
    }
    lemma_upto_all_dead(s, p, 8);
}

/// The candidate-set argument behind the stepping algorithm: every cell
/// alive in the next generation lies in the neighborhood of some cell
/// alive now. A born cell has a live neighbor, and a survivor is its own
/// witness, so nothing outside the live cells' neighborhood closure can
/// come alive.
pub proof fn lemma_next_alive_is_candidate(s: Set<(i32, i32)>, p: (i32, i32))
    requires
        step_spec(s).contains(p),
    ensures
        exists|c: (i32, i32)| #[trigger] s.contains(c) && in_neighborhood(c, p),
{
    if s.contains(p) {
        assert(0 <= 8 < 9 && p == neighborhood_at(p, 8));
        assert(in_neighborhood(p, p));
    } else {
        assert(live_neighbor_count(s, p) == 3);
        lemma_upto_positive(s, p, 8);
        let m = choose|m: int| 0 <= m < 8 && s.contains(#[trigger] nbr(p, m));
        let c = nbr(p, m);
        lemma_nbr_symmetric(p, m);
        assert(0 <= 7 - m < 9 && p == neighborhood_at(c, 7 - m));
        assert(in_neighborhood(c, p));
    }
}

} // verus!
