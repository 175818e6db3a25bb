//! The map that the walker moves on: a grid whose directed edges carry a
//! pheromone weight and a traversal cost.

pub use crate::grid::VerticeLoc;
use crate::grid::{
    adjacent, candidates_upto, contains_vertice, cost_of, in_grid, lemma_linear_index_bounds,
    lemma_linear_index_injective, lemma_neighbours_exact, linear_index, neighbours,
    neighbours_excluding, shifted, COST_DIAGONAL, COST_STRAIGHT, LIKELIHOOD_UNIT, WEIGHT_UNIT,
};
use crate::matrix::{
    has_shape, matrix_diagonal, matrix_entries, matrix_fill, matrix_get, matrix_set, WeightMatrix,
};
use crate::roulette::{
    lemma_pick_selects, lemma_stable_sort_permutes, lemma_stable_sort_total, lemma_total_positive,
    pick, stable_sort, total_weight, RouletteSubjects,
};
use vstd::prelude::*;

verus! {

/// Whether a table of weights for every pair of vertices of a grid of
/// `width` columns and `height` rows can be allocated.
pub open spec fn fits_in_memory(width: usize, height: usize) -> bool {
    4 * ((width * height) * (width * height)) <= isize::MAX
}

/// What an edge-weight table holds: the size of its grid and a weight for
/// every ordered pair of vertices of that grid.
pub struct GraphView {
    pub width: usize,
    pub height: usize,
    pub edges: Map<(VerticeLoc, VerticeLoc), u32>,
}

/// A dense table with one weight for each directed edge of a grid.
pub struct ACOGraph {
    mat: WeightMatrix,
    width: usize,
    height: usize,
}

impl View for ACOGraph {
    type V = GraphView;

    closed spec fn view(&self) -> GraphView {
        GraphView {
            width: self.width,
            height: self.height,
            edges: Map::new(
                |e: (VerticeLoc, VerticeLoc)|
                    in_grid(self.width, self.height, e.0) && in_grid(self.width, self.height, e.1),
                |e: (VerticeLoc, VerticeLoc)|
                    matrix_entries(self.mat)[(
                        linear_index(self.width, e.1),
                        linear_index(self.width, e.0),
                    )],
            ),
        }
    }
}

impl ACOGraph {
    /// The table is as large as its grid asks for.
    pub closed spec fn inv(&self) -> bool {
        has_shape(
            matrix_entries(self.mat),
            self.width * self.height,
            self.width * self.height,
        )
    }

    /// The table has one entry for each ordered pair of vertices of its grid.
    pub open spec fn wf(&self) -> bool {
        &&& self.inv()
        &&& fits_in_memory(self@.width, self@.height)
        &&& forall|e: (VerticeLoc, VerticeLoc)| #[trigger]
            self@.edges.dom().contains(e) <==> (in_grid(self@.width, self@.height, e.0) && in_grid(
                self@.width,
                self@.height,
                e.1,
            ))
    }

    /// A table for a grid of `width` columns and `height` rows in which the
    /// edge from a vertex to itself weighs zero and every other edge `default`.
    pub fn new(width: usize, height: usize, default: u32) -> (graph: Self)
        requires
            fits_in_memory(width, height),
        ensures
            graph.wf(),
            graph@.width == width,
            graph@.height == height,
            forall|a: VerticeLoc, b: VerticeLoc|
                in_grid(width, height, a) && in_grid(width, height, b) ==> #[trigger] graph@.edges[(a, b)] == (
                if a == b {
                    0
                } else {
                    default
                }),
    {
        proof {
            assert(width * height <= (width * height) * (width * height)) by (nonlinear_arith);
        }
        let n_vertices: usize = width * height;
        let mut mat = matrix_diagonal(n_vertices, 0);
        matrix_fill(&mut mat, default);
        let mut i: usize = 0;
        while i < n_vertices
            invariant
                i <= n_vertices,
                has_shape(matrix_entries(mat), n_vertices as int, n_vertices as int),
                forall|r: int, c: int|
                    0 <= r < n_vertices && 0 <= c < n_vertices ==> #[trigger] matrix_entries(mat)[(r, c)] == (
                    if r == c && r < i {
                        0u32
                    } else {
                        default
                    }),
            decreases n_vertices - i,
        {
            matrix_set(&mut mat, i, i, 0);
            i += 1;
        }
        let graph = ACOGraph { mat, width, height };
        proof {
            assert forall|a: VerticeLoc, b: VerticeLoc|
                in_grid(width, height, a) && in_grid(width, height, b) implies #[trigger] graph@.edges[(a, b)]
                == (if a == b {
                0
            } else {
                default
            }) by {
                lemma_linear_index_bounds(width, height, a);
                lemma_linear_index_bounds(width, height, b);
                if linear_index(width, a) == linear_index(width, b) {
                    lemma_linear_index_injective(width, a, b);
                }
            }
        }
        graph
    }

    /// The position of `vertice` when the vertices are counted row by row.
    pub fn idx(&self, vertice: VerticeLoc) -> (i: usize)
        requires
            self.wf(),
            in_grid(self@.width, self@.height, vertice),
        ensures
            i == linear_index(self@.width, vertice),
            i < self@.width * self@.height,
    {
        proof {
            lemma_linear_index_bounds(self.width, self.height, vertice);
            assert(self.width * self.height <= (self.width * self.height) * (self.width * self.height))
                by (nonlinear_arith);
            assert(0 <= vertice.1 * self.width) by (nonlinear_arith);
        }
        vertice.0 + vertice.1 * self.width
    }

    /// The weight of the edge from `v0` to `v1`.
    pub fn get_edg_value(&self, v0: VerticeLoc, v1: VerticeLoc) -> (value: u32)
        requires
            self.wf(),
            in_grid(self@.width, self@.height, v0),
            in_grid(self@.width, self@.height, v1),
        ensures
            value == self@.edges[(v0, v1)],
    {
        let row: usize = self.idx(v0);
        let col: usize = self.idx(v1);
        matrix_get(&self.mat, col, row)
    }

    /// Gives the edge from `v0` to `v1` the weight `value`.
    pub fn set_edg_value(&mut self, v0: VerticeLoc, v1: VerticeLoc, value: u32)
        requires
            old(self).wf(),
            in_grid(old(self)@.width, old(self)@.height, v0),
            in_grid(old(self)@.width, old(self)@.height, v1),
        ensures
            final(self).wf(),
            final(self)@ == (GraphView { edges: old(self)@.edges.insert((v0, v1), value), ..old(self)@ }),
    {
        let row: usize = self.idx(v0);
        let col: usize = self.idx(v1);
        matrix_set(&mut self.mat, col, row, value);
        proof {
            let width = self.width;
            let height = self.height;
            assert forall|e: (VerticeLoc, VerticeLoc)|
                in_grid(width, height, e.0) && in_grid(width, height, e.1) implies #[trigger] self@.edges[e]
                == old(self)@.edges.insert((v0, v1), value)[e] by {
                lemma_linear_index_bounds(width, height, e.0);
                lemma_linear_index_bounds(width, height, e.1);
                if linear_index(width, e.0) == linear_index(width, v0) {
                    lemma_linear_index_injective(width, e.0, v0);
                }
                if linear_index(width, e.1) == linear_index(width, v1) {
                    lemma_linear_index_injective(width, e.1, v1);
                }
            }
            assert(self@.edges =~= old(self)@.edges.insert((v0, v1), value));
        }
    }

    /// The number of columns of the grid.
    pub fn width(&self) -> (w: usize)
        ensures
            w == self@.width,
    {
        self.width
    }

    /// The number of rows of the grid.
    pub fn height(&self) -> (h: usize)
        ensures
            h == self@.height,
    {
        self.height
    }
}

/// What a map holds: the size of its grid, its evaporation rate and the
/// pheromone weight of every ordered pair of vertices.
pub struct MapView {
    pub width: usize,
    pub height: usize,
    pub evaporation_rate: u32,
    pub pheromone: Map<(VerticeLoc, VerticeLoc), u32>,
}

/// A grid with a pheromone weight on each directed edge.
pub struct ACOMap {
    pheromone_graph: ACOGraph,
    cost_graph: ACOGraph,
    evaporation_rate: u32,
}

impl View for ACOMap {
    type V = MapView;

    closed spec fn view(&self) -> MapView {
        MapView {
            width: self.pheromone_graph@.width,
            height: self.pheromone_graph@.height,
            evaporation_rate: self.evaporation_rate,
            pheromone: self.pheromone_graph@.edges,
        }
    }
}

impl ACOMap {
    /// Both tables cover the grid, and the cost table holds the cost of
    /// every move between neighbours.
    pub closed spec fn inv(&self) -> bool {
        &&& self.pheromone_graph.wf()
        &&& self.cost_graph.wf()
        &&& self.cost_graph@.width == self.pheromone_graph@.width
        &&& self.cost_graph@.height == self.pheromone_graph@.height
        &&& self.costs_known_before((0, self.pheromone_graph@.height))
    }

    /// Whether the cost table holds the cost of every move that starts at a
    /// vertex which comes before `limit` when the vertices are counted row by row.
    spec fn costs_known_before(&self, limit: VerticeLoc) -> bool {
        forall|a: VerticeLoc, b: VerticeLoc|
            in_grid(self.cost_graph@.width, self.cost_graph@.height, a) && in_grid(
                self.cost_graph@.width,
                self.cost_graph@.height,
                b,
            ) && adjacent(a, b) && (a.1 < limit.1 || (a.1 == limit.1 && a.0 < limit.0))
                ==> #[trigger] self.cost_graph@.edges[(a, b)] == cost_of(a, b)
    }

    /// The map is sound: its grid is not empty, its evaporation rate is at
    /// most one, and it holds a pheromone weight for each ordered pair of
    /// vertices of the grid.
    pub open spec fn wf(&self) -> bool {
        &&& self.inv()
        &&& self@.width > 0
        &&& self@.height > 0
        &&& fits_in_memory(self@.width, self@.height)
        &&& self@.evaporation_rate <= WEIGHT_UNIT
        &&& forall|e: (VerticeLoc, VerticeLoc)| #[trigger]
            self@.pheromone.dom().contains(e) <==> (in_grid(self@.width, self@.height, e.0) && in_grid(
                self@.width,
                self@.height,
                e.1,
            ))
    }

    /// The desirability of the move from `v0` to `v1`: the pheromone weight
    /// of the edge divided by the cost of the move, in units of one in
    /// `LIKELIHOOD_UNIT` and rounded down.
    pub open spec fn likelihood(&self, v0: VerticeLoc, v1: VerticeLoc) -> u64 {
        (self@.pheromone[(v0, v1)] as int * LIKELIHOOD_UNIT as int / cost_of(v0, v1) as int) as u64
    }

    /// Whether the move from `current` to `to` is open: `to` is a neighbour
    /// of `current` on the grid, is not excluded, and the edge to it
    /// carries some pheromone.
    pub open spec fn open_move(&self, current: VerticeLoc, exclusions: Seq<VerticeLoc>, to: VerticeLoc) -> bool {
        &&& in_grid(self@.width, self@.height, to)
        &&& adjacent(current, to)
        &&& !exclusions.contains(to)
        &&& self@.pheromone[(current, to)] > 0
    }

    /// A move is likely exactly where its edge carries pheromone: rounding
    /// never takes a positive likelihood down to zero.
    pub proof fn lemma_likelihood_positive(&self, v0: VerticeLoc, v1: VerticeLoc)
        ensures
            self.likelihood(v0, v1) > 0 <==> self@.pheromone[(v0, v1)] > 0,
            self.likelihood(v0, v1) == self@.pheromone[(v0, v1)] as int * LIKELIHOOD_UNIT as int / cost_of(
                v0,
                v1,
            ) as int,
    {
        let p = self@.pheromone[(v0, v1)] as int;
        let c = cost_of(v0, v1) as int;
        let q = p * 1_000_000_000 / c;
        assert(0 <= q <= p * 1_000_000_000 && (p > 0 ==> q > 0) && (p == 0 ==> q == 0))
            by (nonlinear_arith)
            requires
                0 <= p,
                1_000_000 <= c <= 1_414_214,
                q == p * 1_000_000_000 / c,
        ;
        assert(p * 1_000_000_000 <= 4_294_967_295 * 1_000_000_000) by (nonlinear_arith)
            requires
                p <= 4_294_967_295,
        ;
    }

    /// The candidates around `current` have a positive total likelihood
    /// exactly where some move from `current` is open.
    pub proof fn lemma_open_moves(&self, current: VerticeLoc, exclusions: Seq<VerticeLoc>)
        ensures
            total_weight(self.candidates(current, exclusions)) > 0 <==> exists|to: VerticeLoc| #[trigger]
                self.open_move(current, exclusions, to),
    {
        let around = neighbours_excluding(self@.width, self@.height, current, exclusions);
        let listed = self.candidates(current, exclusions);
        lemma_total_positive(listed);
        lemma_neighbours_exact(self@.width, self@.height, current, exclusions);
        if total_weight(listed) > 0 {
            let k = choose|k: int| 0 <= k < listed.len() && (#[trigger] listed[k]).0 > 0;
            assert(around.contains(around[k]));
            self.lemma_likelihood_positive(current, around[k]);
            assert(self.open_move(current, exclusions, around[k]));
        }
        if exists|to: VerticeLoc| #[trigger] self.open_move(current, exclusions, to) {
            let to = choose|to: VerticeLoc| #[trigger] self.open_move(current, exclusions, to);
            assert(around.contains(to));
            let k = choose|k: int| 0 <= k < around.len() && around[k] == to;
            self.lemma_likelihood_positive(current, to);
            assert(listed[k].0 > 0);
        }
    }

    /// Each of `targets` with the likelihood of the move to it from `current`.
    pub open spec fn weighted(&self, current: VerticeLoc, targets: Seq<VerticeLoc>) -> Seq<
        (u64, VerticeLoc),
    > {
        Seq::new(targets.len(), |i: int| (self.likelihood(current, targets[i]), targets[i]))
    }

    /// The neighbours of `current` that `exclusions` does not hold, each with
    /// the likelihood of the move to it.
    pub open spec fn candidates(&self, current: VerticeLoc, exclusions: Seq<VerticeLoc>) -> Seq<
        (u64, VerticeLoc),
    > {
        self.weighted(current, neighbours_excluding(self@.width, self@.height, current, exclusions))
    }

    /// The neighbour that `draw` selects among the candidates around
    /// `current`, taken in ascending order of likelihood.
    pub open spec fn selected(
        &self,
        current: VerticeLoc,
        exclusions: Seq<VerticeLoc>,
        draw: nat,
    ) -> Option<VerticeLoc> {
        pick(stable_sort(self.candidates(current, exclusions)), draw)
    }

    /// A draw selects a neighbour exactly when it lies below the total
    /// likelihood of the candidates. The neighbour selected lies on the
    /// grid next to `current`, is not excluded, and has a positive likelihood.
    pub proof fn lemma_selected_is_candidate(
        &self,
        current: VerticeLoc,
        exclusions: Seq<VerticeLoc>,
        draw: nat,
    )
        ensures
            self.selected(current, exclusions, draw).is_some() <==> draw < total_weight(
                self.candidates(current, exclusions),
            ),
            self.selected(current, exclusions, draw) matches Some(v) ==> {
                &&& self.open_move(current, exclusions, v)
                &&& self.likelihood(current, v) > 0
            },
    {
        let around = neighbours_excluding(self@.width, self@.height, current, exclusions);
        let listed = self.candidates(current, exclusions);
        let sorted = stable_sort(listed);
        lemma_stable_sort_total(listed);
        lemma_stable_sort_permutes(listed);
        lemma_pick_selects(sorted, draw);
        lemma_neighbours_exact(self@.width, self@.height, current, exclusions);
        if draw < total_weight(listed) {
            let k = choose|k: int| #[trigger]
                crate::roulette::lands_on(sorted, draw, k) && sorted[k].0 > 0 && pick(sorted, draw) == Some(
                    sorted[k].1,
                );
            assert(sorted.contains(sorted[k]));
            assert(listed.contains(sorted[k]));
            let m = choose|m: int| 0 <= m < listed.len() && listed[m] == sorted[k];
            assert(around.contains(around[m]));
            self.lemma_likelihood_positive(current, around[m]);
        }
    }

    /// Whether a table for a grid of `width` columns and `height` rows can be
    /// allocated on this machine.
    pub fn fits(width: usize, height: usize) -> (ok: bool)
        ensures
            ok == fits_in_memory(width, height),
    {
        match width.checked_mul(height) {
            None => {
                proof {
                    assert((width * height) * (width * height) >= width * height) by (nonlinear_arith);
                }
                false
            },
            Some(n) => match n.checked_mul(n) {
                None => false,
                Some(square) => square <= isize::MAX as usize / 4,
            },
        }
    }

    /// A map of `width` columns and `height` rows on which every edge
    /// between distinct vertices carries a pheromone weight of one. There
    /// is no such map without columns or rows, or with an evaporation rate
    /// above one.
    pub fn new(width: usize, height: usize, evaporation_rate: u32) -> (r: Option<Self>)
        requires
            fits_in_memory(width, height),
        ensures
            r.is_some() <==> (width > 0 && height > 0 && evaporation_rate <= WEIGHT_UNIT),
            r matches Some(map) ==> {
                &&& map.wf()
                &&& map@.width == width
                &&& map@.height == height
                &&& map@.evaporation_rate == evaporation_rate
                &&& forall|a: VerticeLoc, b: VerticeLoc|
                    in_grid(width, height, a) && in_grid(width, height, b) ==> #[trigger] map@.pheromone[(
                        a,
                        b,
                    )] == (if a == b {
                        0
                    } else {
                        WEIGHT_UNIT
                    })
            },
    {
        if width == 0 || height == 0 || evaporation_rate > WEIGHT_UNIT {
            return None;
        }
        let mut aco_map = ACOMap {
            pheromone_graph: ACOGraph::new(width, height, WEIGHT_UNIT),
            cost_graph: ACOGraph::new(width, height, COST_STRAIGHT),
            evaporation_rate,
        };
        aco_map.fill_costs();
        Some(aco_map)
    }

    /// Writes the cost of every move between neighbours into the cost table.
    fn fill_costs(&mut self)
        requires
            old(self).pheromone_graph.wf(),
            old(self).cost_graph.wf(),
            old(self).cost_graph@.width == old(self).pheromone_graph@.width,
            old(self).cost_graph@.height == old(self).pheromone_graph@.height,
        ensures
            final(self).inv(),
            final(self).pheromone_graph == old(self).pheromone_graph,
            final(self).evaporation_rate == old(self).evaporation_rate,
    {
        let width: usize = self.pheromone_graph.width();
        let height: usize = self.pheromone_graph.height();
        let mut y: usize = 0;
        while y < height
            invariant
                y <= height,
                self.pheromone_graph == old(self).pheromone_graph,
                self.evaporation_rate == old(self).evaporation_rate,
                self.pheromone_graph@.width == width,
                self.pheromone_graph@.height == height,
                self.cost_graph.wf(),
                self.cost_graph@.width == width,
                self.cost_graph@.height == height,
                self.costs_known_before((0, y)),
            decreases height - y,
        {
            let mut x: usize = 0;
            while x < width
                invariant
                    y < height,
                    x <= width,
                    self.pheromone_graph == old(self).pheromone_graph,
                    self.evaporation_rate == old(self).evaporation_rate,
                    self.pheromone_graph@.width == width,
                    self.pheromone_graph@.height == height,
                    self.cost_graph.wf(),
                    self.cost_graph@.width == width,
                    self.cost_graph@.height == height,
                    self.costs_known_before((x, y)),
                decreases width - x,
            {
                let from: VerticeLoc = (x, y);
                let around: Vec<VerticeLoc> = self.get_neighbours(from);
                proof {
                    lemma_neighbours_exact(width, height, from, Seq::empty());
                }
                let mut j: usize = 0;
                while j < around.len()
                    invariant
                        j <= around@.len(),
                        from == (x, y),
                        x < width,
                        y < height,
                        self.pheromone_graph == old(self).pheromone_graph,
                        self.evaporation_rate == old(self).evaporation_rate,
                        self.pheromone_graph@.width == width,
                        self.pheromone_graph@.height == height,
                        self.cost_graph.wf(),
                        self.cost_graph@.width == width,
                        self.cost_graph@.height == height,
                        self.costs_known_before((x, y)),
                        forall|u: VerticeLoc| #[trigger]
                            around@.contains(u) ==> in_grid(width, height, u) && adjacent(from, u),
                        forall|m: int|
                            0 <= m < j ==> #[trigger] self.cost_graph@.edges[(from, around@[m])] == cost_of(
                                from,
                                around@[m],
                            ),
                    decreases around@.len() - j,
                {
                    let to: VerticeLoc = around[j];
                    assert(around@.contains(to));
                    self.cost_graph.set_edg_value(from, to, Self::cost(from, to));
                    j += 1;
                }
                x += 1;
                proof {
                    assert forall|a: VerticeLoc, b: VerticeLoc|
                        in_grid(width, height, a) && in_grid(width, height, b) && adjacent(a, b) && (a.1 < y || (
                        a.1 == y && a.0 < x)) implies #[trigger] self.cost_graph@.edges[(a, b)] == cost_of(
                        a,
                        b,
                    ) by {
                        if a == from {
                            assert(around@.contains(b));
                            let m = choose|m: int| 0 <= m < around@.len() && around@[m] == b;
                            assert(self.cost_graph@.edges[(from, around@[m])] == cost_of(from, around@[m]));
                        }
                    }
                }
            }
            y += 1;
        }
    }

    /// The number of columns of the grid.
    pub fn width(&self) -> (w: usize)
        ensures
            w == self@.width,
    {
        self.pheromone_graph.width()
    }

    /// The number of rows of the grid.
    pub fn height(&self) -> (h: usize)
        ensures
            h == self@.height,
    {
        self.pheromone_graph.height()
    }

    /// The share of pheromone that is meant to evaporate in one round.
    pub fn evaporation_rate(&self) -> (rate: u32)
        ensures
            rate == self@.evaporation_rate,
    {
        self.evaporation_rate
    }

    /// The pheromone weight of the edge from `v0` to `v1`.
    pub fn pheromone(&self, v0: VerticeLoc, v1: VerticeLoc) -> (value: u32)
        requires
            self.wf(),
            in_grid(self@.width, self@.height, v0),
            in_grid(self@.width, self@.height, v1),
        ensures
            value == self@.pheromone[(v0, v1)],
    {
        self.pheromone_graph.get_edg_value(v0, v1)
    }

    /// Gives the edge from `v0` to `v1` the pheromone weight `value`.
    pub fn set_pheromone(&mut self, v0: VerticeLoc, v1: VerticeLoc, value: u32)
        requires
            old(self).wf(),
            in_grid(old(self)@.width, old(self)@.height, v0),
            in_grid(old(self)@.width, old(self)@.height, v1),
        ensures
            final(self).wf(),
            final(self)@ == (MapView {
                pheromone: old(self)@.pheromone.insert((v0, v1), value),
                ..old(self)@
            }),
    {
        self.pheromone_graph.set_edg_value(v0, v1, value);
    }

    /// The cost of the move from `v0` to `v1`: one along a row or a column,
    /// the square root of two along a diagonal.
    pub fn cost(v0: VerticeLoc, v1: VerticeLoc) -> (c: u32)
        ensures
            c == cost_of(v0, v1),
    {
        if v0.0 != v1.0 && v0.1 != v1.1 {
            COST_DIAGONAL
        } else {
            COST_STRAIGHT
        }
    }

    /// The neighbours of `vertice` on the grid.
    pub fn get_neighbours(&self, vertice: VerticeLoc) -> (found: Vec<VerticeLoc>)
        ensures
            found@ == neighbours(self@.width, self@.height, vertice),
    {
        let nothing: Vec<VerticeLoc> = Vec::new();
        self.get_neighbours_with_exclusions(vertice, &nothing)
    }

    /// The neighbours of `vertice` on the grid that `exclusions` does not hold.
    pub fn get_neighbours_with_exclusions(
        &self,
        vertice: VerticeLoc,
        exclusions: &Vec<VerticeLoc>,
    ) -> (found: Vec<VerticeLoc>)
        ensures
            found@ == neighbours_excluding(self@.width, self@.height, vertice, exclusions@),
            forall|u: VerticeLoc| #[trigger]
                found@.contains(u) <==> (in_grid(self@.width, self@.height, u) && adjacent(vertice, u)
                    && !exclusions@.contains(u)),
    {
        let width: usize = self.width();
        let height: usize = self.height();
        let mut found: Vec<VerticeLoc> = Vec::new();
        let mut k: usize = 0;
        while k < 9
            invariant
                k <= 9,
                found@ == candidates_upto(width, height, vertice, exclusions@, k as int),
            decreases 9 - k,
        {
            if k != 4 {
                if let Some(x) = shifted(vertice.0, k / 3, width) {
                    if let Some(y) = shifted(vertice.1, k % 3, height) {
                        if !contains_vertice(exclusions, (x, y)) {
                            found.push((x, y));
                        }
                    }
                }
            }
            k += 1;
        }
        proof {
            lemma_neighbours_exact(width, height, vertice, exclusions@);
        }
        found
    }

    /// The likelihood of the move from `v0` to its neighbour `v1`.
    pub fn get_likelyhood_factor(&self, v0: VerticeLoc, v1: VerticeLoc) -> (factor: u64)
        requires
            self.wf(),
            in_grid(self@.width, self@.height, v0),
            in_grid(self@.width, self@.height, v1),
            adjacent(v0, v1),
        ensures
            factor == self.likelihood(v0, v1),
            factor > 0 <==> self@.pheromone[(v0, v1)] > 0,
    {
        let pheromone: u32 = self.pheromone_graph.get_edg_value(v0, v1);
        let cost: u32 = self.cost_graph.get_edg_value(v0, v1);
        assert(cost == cost_of(v0, v1));
        proof {
            self.lemma_likelihood_positive(v0, v1);
        }
        assert(pheromone as u64 * LIKELIHOOD_UNIT <= u64::MAX) by (nonlinear_arith)
            requires
                pheromone <= u32::MAX,
                LIKELIHOOD_UNIT == 1_000_000_000,
        ;
        (pheromone as u64 * LIKELIHOOD_UNIT) / cost as u64
    }

    /// The neighbours of `current` that `exclusions` does not hold, each with
    /// the likelihood of the move to it.
    pub fn weigh_neighbours(&self, current: VerticeLoc, exclusions: &Vec<VerticeLoc>) -> (subjects:
        RouletteSubjects<VerticeLoc>)
        requires
            self.wf(),
            in_grid(self@.width, self@.height, current),
        ensures
            subjects@ == self.candidates(current, exclusions@),
    {
        let around: Vec<VerticeLoc> = self.get_neighbours_with_exclusions(current, exclusions);
        let mut subjects: RouletteSubjects<VerticeLoc> = RouletteSubjects::new();
        let mut i: usize = 0;
        while i < around.len()
            invariant
                i <= around@.len(),
                self.wf(),
                in_grid(self@.width, self@.height, current),
                forall|u: VerticeLoc| #[trigger]
                    around@.contains(u) ==> in_grid(self@.width, self@.height, u) && adjacent(current, u),
                subjects@ == self.weighted(current, around@.take(i as int)),
            decreases around@.len() - i,
        {
            let to: VerticeLoc = around[i];
            assert(around@.contains(to));
            let likelyhood: u64 = self.get_likelyhood_factor(current, to);
            subjects.push((likelyhood, to));
            i += 1;
            assert(subjects@ =~= self.weighted(current, around@.take(i as int)));
        }
        assert(around@.take(around@.len() as int) == around@);
        subjects
    }

    /// The neighbour of `current` that `draw` selects, each neighbour that
    /// `exclusions` does not hold taking a share of the draws that is
    /// proportional to its likelihood.
    pub fn pick_next_vertice(
        &self,
        current: VerticeLoc,
        exclusions: &Vec<VerticeLoc>,
        draw: u128,
    ) -> (next: Option<VerticeLoc>)
        requires
            self.wf(),
            in_grid(self@.width, self@.height, current),
        ensures
            next == self.selected(current, exclusions@, draw as nat),
    {
        let mut subjects = self.weigh_neighbours(current, exclusions);
        subjects.sort();
        subjects.select(draw)
    }

    /// A neighbour of `current`, drawn at random with a probability
    /// proportional to its likelihood; none where no edge to a neighbour
    /// carries pheromone.
    pub fn get_next_vertice(&self, current: VerticeLoc) -> (next: Option<VerticeLoc>)
        requires
            self.wf(),
            in_grid(self@.width, self@.height, current),
        ensures
            next.is_some() <==> total_weight(self.candidates(current, Seq::empty())) > 0,
            total_weight(self.candidates(current, Seq::empty())) > 0 ==> exists|draw: nat|
                draw < total_weight(self.candidates(current, Seq::empty())) && next == #[trigger] self.selected(
                    current,
                    Seq::empty(),
                    draw,
                ),
            next.is_some() <==> exists|to: VerticeLoc| #[trigger] self.open_move(current, Seq::empty(), to),
            next matches Some(v) ==> {
                &&& in_grid(self@.width, self@.height, v)
                &&& adjacent(current, v)
                &&& self@.pheromone[(current, v)] > 0
                &&& self.likelihood(current, v) > 0
            },
    {
        let nothing: Vec<VerticeLoc> = Vec::new();
        self.get_next_vertice_with_exclusions(current, &nothing)
    }

    /// A neighbour of `current` that `exclusions` does not hold, drawn at
    /// random with a probability proportional to its likelihood; none where
    /// no edge to such a neighbour carries pheromone.
    pub fn get_next_vertice_with_exclusions(
        &self,
        current: VerticeLoc,
        exclusions: &Vec<VerticeLoc>,
    ) -> (next: Option<VerticeLoc>)
        requires
            self.wf(),
            in_grid(self@.width, self@.height, current),
        ensures
            next.is_some() <==> total_weight(self.candidates(current, exclusions@)) > 0,
            total_weight(self.candidates(current, exclusions@)) > 0 ==> exists|draw: nat|
                draw < total_weight(self.candidates(current, exclusions@)) && next == #[trigger] self.selected(
                    current,
                    exclusions@,
                    draw,
                ),
            next.is_some() <==> exists|to: VerticeLoc| #[trigger] self.open_move(current, exclusions@, to),
            next matches Some(v) ==> {
                &&& in_grid(self@.width, self@.height, v)
                &&& adjacent(current, v)
                &&& !exclusions@.contains(v)
                &&& self@.pheromone[(current, v)] > 0
                &&& self.likelihood(current, v) > 0
            },
    {
        let mut subjects = self.weigh_neighbours(current, exclusions);
        let next = subjects.roulette();
        proof {
            self.lemma_open_moves(current, exclusions@);
            if total_weight(self.candidates(current, exclusions@)) > 0 {
                let draw = choose|draw: nat|
                    draw < total_weight(self.candidates(current, exclusions@)) && next == #[trigger] pick(
                        subjects@,
                        draw,
                    );
                assert(next == self.selected(current, exclusions@, draw));
                self.lemma_selected_is_candidate(current, exclusions@, draw);
            }
        }
        next
    }
}

} // verus!
