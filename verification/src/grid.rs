//! The geometry of the grid: vertices, their linear index, their
//! neighbourhood and the cost of moving between neighbours.

use vstd::prelude::*;

verus! {

/// A vertex of the grid, as `(x, y)`.
pub type VerticeLoc = (usize, usize);

/// One in the fixed-point scale of every pheromone weight, cost and rate: a
/// weight `w` stands for the number `w / WEIGHT_UNIT`.
pub const WEIGHT_UNIT: u32 = 1_000_000;

/// One in the finer scale of a likelihood: a likelihood `l` stands for the
/// number `l / LIKELIHOOD_UNIT`. The scale is fine enough for the smallest
/// pheromone weight over the largest cost to stay above zero.
pub const LIKELIHOOD_UNIT: u64 = 1_000_000_000;

/// The cost of a move along a row or a column: one.
pub const COST_STRAIGHT: u32 = 1_000_000;

/// The cost of a diagonal move: the square root of two, to the nearest
/// millionth.
pub const COST_DIAGONAL: u32 = 1_414_214;

/// Whether `v` lies on a grid of `width` columns and `height` rows.
pub open spec fn in_grid(width: usize, height: usize, v: VerticeLoc) -> bool {
    v.0 < width && v.1 < height
}

/// The position of `v` when the vertices are counted row by row.
pub open spec fn linear_index(width: usize, v: VerticeLoc) -> int {
    v.0 + v.1 * width
}

/// Whether `a` and `b` are distinct and differ by at most one in each coordinate.
pub open spec fn adjacent(a: VerticeLoc, b: VerticeLoc) -> bool {
    &&& a != b
    &&& a.0 - b.0 <= 1
    &&& b.0 - a.0 <= 1
    &&& a.1 - b.1 <= 1
    &&& b.1 - a.1 <= 1
}

/// The cost of the move from `v0` to `v1`.
pub open spec fn cost_of(v0: VerticeLoc, v1: VerticeLoc) -> u32 {
    if v0.0 != v1.0 && v0.1 != v1.1 {
        COST_DIAGONAL
    } else {
        COST_STRAIGHT
    }
}

/// The cell at position `k` of the three-by-three window around `v`, counted
/// from `(v.0 - 1, v.1 - 1)` with the second coordinate running fastest.
pub open spec fn window_cell(v: VerticeLoc, k: int) -> (int, int) {
    (v.0 + k / 3 - 1, v.1 + k % 3 - 1)
}

/// Whether position `k` of the window around `v` holds a neighbour of `v`
/// that lies on the grid and is not excluded.
pub open spec fn is_candidate(
    width: usize,
    height: usize,
    v: VerticeLoc,
    exclusions: Seq<VerticeLoc>,
    k: int,
) -> bool {
    let cell = window_cell(v, k);
    &&& k != 4
    &&& 0 <= cell.0 < width
    &&& 0 <= cell.1 < height
    &&& !exclusions.contains((cell.0 as usize, cell.1 as usize))
}

/// The neighbours found at the first `k` positions of the window around `v`.
pub open spec fn candidates_upto(
    width: usize,
    height: usize,
    v: VerticeLoc,
    exclusions: Seq<VerticeLoc>,
    k: int,
) -> Seq<VerticeLoc>
    decreases k,
{
    if k <= 0 {
        Seq::empty()
    } else {
        let found = candidates_upto(width, height, v, exclusions, k - 1);
        let cell = window_cell(v, k - 1);
        if is_candidate(width, height, v, exclusions, k - 1) {
            found.push((cell.0 as usize, cell.1 as usize))
        } else {
            found
        }
    }
}

/// The neighbours of `v` on the grid that `exclusions` does not hold, in the
/// order of the window around `v`.
pub open spec fn neighbours_excluding(
    width: usize,
    height: usize,
    v: VerticeLoc,
    exclusions: Seq<VerticeLoc>,
) -> Seq<VerticeLoc> {
    candidates_upto(width, height, v, exclusions, 9)
}

/// The neighbours of `v` on the grid, in the order of the window around `v`.
pub open spec fn neighbours(width: usize, height: usize, v: VerticeLoc) -> Seq<VerticeLoc> {
    neighbours_excluding(width, height, v, Seq::empty())
}

/// Whether `v` lies in the first or last column, or in the first or last row.
pub open spec fn on_border(width: usize, height: usize, v: VerticeLoc) -> bool {
    v.0 == 0 || v.0 == width - 1 || v.1 == 0 || v.1 == height - 1
}

/// Whether `v` lies both in an outer column and in an outer row.
pub open spec fn is_corner(width: usize, height: usize, v: VerticeLoc) -> bool {
    (v.0 == 0 || v.0 == width - 1) && (v.1 == 0 || v.1 == height - 1)
}

/// The linear index of a vertex on the grid lies below the number of vertices.
pub proof fn lemma_linear_index_bounds(width: usize, height: usize, v: VerticeLoc)
    requires
        in_grid(width, height, v),
    ensures
        0 <= linear_index(width, v) < width * height,
{
    assert(v.0 + v.1 * width < width * height) by (nonlinear_arith)
        requires
            v.0 < width,
            v.1 < height,
    ;
    assert(0 <= v.1 * width) by (nonlinear_arith);
}

/// Two vertices of one grid that share a linear index are the same vertex.
pub proof fn lemma_linear_index_injective(width: usize, a: VerticeLoc, b: VerticeLoc)
    requires
        a.0 < width,
        b.0 < width,
        linear_index(width, a) == linear_index(width, b),
    ensures
        a == b,
{
    assert(a.1 == b.1) by (nonlinear_arith)
        requires
            a.0 < width,
            b.0 < width,
            a.0 + a.1 * width == b.0 + b.1 * width,
    ;
}

/// Every number below the number of vertices is the linear index of a
/// vertex of the grid.
pub proof fn lemma_linear_index_onto(width: usize, height: usize, i: int)
    requires
        0 <= i < width * height,
    ensures
        exists|v: VerticeLoc| in_grid(width, height, v) && #[trigger] linear_index(width, v) == i,
{
    assert(width > 0) by (nonlinear_arith)
        requires
            0 <= i < width * height,
    ;
    let x = i % (width as int);
    let y = i / (width as int);
    assert(0 <= y < height && x + y * width == i) by (nonlinear_arith)
        requires
            width > 0,
            0 <= i < width * height,
            x == i % (width as int),
            y == i / (width as int),
    ;
    let v: VerticeLoc = (x as usize, y as usize);
    assert(in_grid(width, height, v) && linear_index(width, v) == i);
}

/// The cost of a move does not depend on its direction.
pub proof fn lemma_cost_symmetric(a: VerticeLoc, b: VerticeLoc)
    ensures
        cost_of(a, b) == cost_of(b, a),
{
}

/// A move costs one where only one coordinate changes and the square root of
/// two where both do: the diagonal cost is the nearest millionth to that
/// root, and no move costs less than one.
pub proof fn lemma_cost_values(a: VerticeLoc, b: VerticeLoc)
    ensures
        a.0 == b.0 || a.1 == b.1 ==> cost_of(a, b) == WEIGHT_UNIT,
        a.0 != b.0 && a.1 != b.1 ==> cost_of(a, b) == COST_DIAGONAL,
        (2 * COST_DIAGONAL - 1) * (2 * COST_DIAGONAL - 1) < 8 * WEIGHT_UNIT * WEIGHT_UNIT,
        8 * WEIGHT_UNIT * WEIGHT_UNIT < (2 * COST_DIAGONAL + 1) * (2 * COST_DIAGONAL + 1),
        cost_of(a, b) >= WEIGHT_UNIT,
{
    assert(2_828_427int * 2_828_427 < 8_000_000_000_000int) by (nonlinear_arith);
    assert(8_000_000_000_000int < 2_828_429int * 2_828_429) by (nonlinear_arith);
    assert(8 * WEIGHT_UNIT * WEIGHT_UNIT == 8_000_000_000_000int) by (nonlinear_arith);
}

/// What the first `k` positions of the window yield are exactly the cells at
/// those positions that are candidates, each once.
pub proof fn lemma_candidates_upto(
    width: usize,
    height: usize,
    v: VerticeLoc,
    exclusions: Seq<VerticeLoc>,
    k: int,
)
    requires
        0 <= k <= 9,
    ensures
        forall|u: VerticeLoc| #[trigger]
            candidates_upto(width, height, v, exclusions, k).contains(u) <==> exists|j: int|
                0 <= j < k && #[trigger] is_candidate(width, height, v, exclusions, j) && window_cell(v, j)
                    == (u.0 as int, u.1 as int),
        candidates_upto(width, height, v, exclusions, k).no_duplicates(),
    decreases k,
{
    let found = candidates_upto(width, height, v, exclusions, k);
    if k > 0 {
        let before = candidates_upto(width, height, v, exclusions, k - 1);
        lemma_candidates_upto(width, height, v, exclusions, k - 1);
        let cell = window_cell(v, k - 1);
        let fresh = (cell.0 as usize, cell.1 as usize);
        assert forall|u: VerticeLoc| #[trigger] found.contains(u) <==> exists|j: int|
            0 <= j < k && #[trigger] is_candidate(width, height, v, exclusions, j) && window_cell(v, j) == (
                u.0 as int,
                u.1 as int,
            ) by {
            if found.contains(u) {
                let i = choose|i: int| 0 <= i < found.len() && found[i] == u;
                if is_candidate(width, height, v, exclusions, k - 1) && i == found.len() - 1 {
                    assert(window_cell(v, k - 1) == (u.0 as int, u.1 as int));
                } else {
                    assert(before[i] == u);
                    assert(before.contains(u));
                }
            }
            if exists|j: int|
                0 <= j < k && #[trigger] is_candidate(width, height, v, exclusions, j) && window_cell(v, j) == (
                    u.0 as int,
                    u.1 as int,
                ) {
                let j = choose|j: int|
                    0 <= j < k && #[trigger] is_candidate(width, height, v, exclusions, j) && window_cell(v, j)
                        == (u.0 as int, u.1 as int);
                if j == k - 1 {
                    assert(found[found.len() - 1] == u);
                } else {
                    assert(before.contains(u));
                    let i = choose|i: int| 0 <= i < before.len() && before[i] == u;
                    assert(found[i] == u);
                }
            }
        }
        if is_candidate(width, height, v, exclusions, k - 1) {
            if before.contains(fresh) {
                let j = choose|j: int|
                    0 <= j < k - 1 && #[trigger] is_candidate(width, height, v, exclusions, j) && window_cell(
                        v,
                        j,
                    ) == (fresh.0 as int, fresh.1 as int);
                assert(j / 3 == (k - 1) / 3 && j % 3 == (k - 1) % 3);
                assert(false);
            }
            assert forall|i: int, j: int| 0 <= i < found.len() && 0 <= j < found.len() && i != j implies found[i]
                != found[j] by {
                if i == found.len() - 1 {
                    assert(before.contains(found[j]));
                } else if j == found.len() - 1 {
                    assert(before.contains(found[i]));
                }
            }
        }
    }
}

/// The neighbours found around `v` are exactly the vertices of the grid that
/// are adjacent to `v` and not excluded, and none of them is found twice.
pub proof fn lemma_neighbours_exact(
    width: usize,
    height: usize,
    v: VerticeLoc,
    exclusions: Seq<VerticeLoc>,
)
    ensures
        forall|u: VerticeLoc| #[trigger]
            neighbours_excluding(width, height, v, exclusions).contains(u) <==> (in_grid(width, height, u)
                && adjacent(v, u) && !exclusions.contains(u)),
        neighbours_excluding(width, height, v, exclusions).no_duplicates(),
{
    lemma_candidates_upto(width, height, v, exclusions, 9);
    let found = neighbours_excluding(width, height, v, exclusions);
    assert forall|u: VerticeLoc| #[trigger] found.contains(u) <==> (in_grid(width, height, u) && adjacent(v, u)
        && !exclusions.contains(u)) by {
        if found.contains(u) {
            let j = choose|j: int|
                0 <= j < 9 && #[trigger] is_candidate(width, height, v, exclusions, j) && window_cell(v, j) == (
                    u.0 as int,
                    u.1 as int,
                );
            assert(0 <= j / 3 <= 2 && 0 <= j % 3 <= 2);
            assert(j != 4);
        }
        if in_grid(width, height, u) && adjacent(v, u) && !exclusions.contains(u) {
            let j = (u.0 - v.0 + 1) * 3 + (u.1 - v.1 + 1);
            assert(j / 3 == u.0 - v.0 + 1 && j % 3 == u.1 - v.1 + 1);
            assert(is_candidate(width, height, v, exclusions, j));
        }
    }
}

/// A vertex off the border has eight neighbours. On a grid of two or more
/// rows and columns a vertex on the border has five, and a corner has three.
pub proof fn lemma_neighbour_count(width: usize, height: usize, v: VerticeLoc)
    requires
        in_grid(width, height, v),
    ensures
        !on_border(width, height, v) ==> neighbours(width, height, v).len() == 8,
        width >= 2 && height >= 2 && on_border(width, height, v) && !is_corner(width, height, v)
            ==> neighbours(width, height, v).len() == 5,
        width >= 2 && height >= 2 && is_corner(width, height, v) ==> neighbours(width, height, v).len() == 3,
{
    reveal_with_fuel(candidates_upto, 10);
    let none = Seq::<VerticeLoc>::empty();
    assert(forall|u: VerticeLoc| !none.contains(u));
}

/// The coordinate `coord + step - 1`, where it is not negative and lies
/// below `limit`.
pub(crate) fn shifted(coord: usize, step: usize, limit: usize) -> (r: Option<usize>)
    requires
        step <= 2,
    ensures
        r.is_some() <==> 0 <= coord + step - 1 < limit,
        r matches Some(c) ==> c == coord + step - 1,
{
    if step == 0 {
        if coord >= 1 && coord - 1 < limit {
            Some(coord - 1)
        } else {
            None
        }
    } else if step == 1 {
        if coord < limit {
            Some(coord)
        } else {
            None
        }
    } else {
        if coord < usize::MAX && coord + 1 < limit {
            Some(coord + 1)
        } else {
            None
        }
    }
}

/// Whether `list` holds `v`.
pub fn contains_vertice(list: &Vec<VerticeLoc>, v: VerticeLoc) -> (found: bool)
    ensures
        found == list@.contains(v),
{
    let mut i: usize = 0;
    while i < list.len()
        invariant
            i <= list@.len(),
            forall|m: int| 0 <= m < i ==> list@[m] != v,
        decreases list@.len() - i,
    {
        if list[i].0 == v.0 && list[i].1 == v.1 {
            return true;
        }
        i += 1;
    }
    false
}

} // verus!
