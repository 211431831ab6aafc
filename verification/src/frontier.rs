//! The frontier: which coordinates are known, which border known territory, and
//! which are still unknown.

use vstd::prelude::*;

use crate::grid::{
    all_coords, axis_at, axis_index, cell_index, coord_at, count_cells, lemma_cell_index_bijective,
    lemma_coord_set_len, lemma_coord_set_size, lemma_listing, ternary_value, Coord, Ternary,
};

verus! {

/// Whether a region is known (explored), unknown, or the boundary between them.
#[derive(Debug, Clone, Copy, PartialEq, Eq, Hash, Structural)]
pub enum RegionStatus {
    Known,
    Frontier,
    Unknown,
}

/// Two coordinates are adjacent when they are at Manhattan distance 1 on the 3×3
/// grid whose rows and columns wrap around. On three values, a step of one in either
/// direction reaches both other values, so this is: same row or same column, and
/// not the same coordinate.
pub open spec fn adjacent(a: Coord, b: Coord) -> bool {
    ||| a.x == b.x && a.y != b.y
    ||| a.x != b.x && a.y == b.y
}

/// The ternary value one step of `d` away from `t`, wrapping around the axis.
pub open spec fn wrap_step(t: Ternary, d: Ternary) -> Ternary {
    axis_at((axis_index(t) + ternary_value(d) + 3) % 3)
}

/// The four neighbors of `c`, in the order in which they are visited: a step
/// back along `x`, back along `y`, forward along `y`, forward along `x`.
pub open spec fn neighbor_seq(c: Coord) -> Seq<Coord> {
    seq![
        Coord { x: wrap_step(c.x, Ternary::Neg), y: c.y },
        Coord { x: c.x, y: wrap_step(c.y, Ternary::Neg) },
        Coord { x: c.x, y: wrap_step(c.y, Ternary::Pos) },
        Coord { x: wrap_step(c.x, Ternary::Pos), y: c.y },
    ]
}

/// The neighbors of a coordinate are exactly the coordinates adjacent to it,
/// each listed once; adjacency is symmetric and no coordinate is its own neighbor.
pub proof fn lemma_neighbors_are_adjacent(c: Coord, d: Coord)
    ensures
        neighbor_seq(c).contains(d) <==> adjacent(c, d),
        neighbor_seq(c).no_duplicates(),
        adjacent(c, d) == adjacent(d, c),
        !adjacent(c, c),
{
    let ns = neighbor_seq(c);
    if adjacent(c, d) {
        if c.x == d.x {
            if wrap_step(c.y, Ternary::Neg) == d.y {
                assert(ns[1] == d);
            } else {
                assert(ns[2] == d);
            }
        } else {
            if wrap_step(c.x, Ternary::Neg) == d.x {
                assert(ns[0] == d);
            } else {
                assert(ns[3] == d);
            }
        }
    }
}

/// The status of every coordinate after exploring `coord`: unless it was known
/// already, it becomes known, and its unknown neighbors join the frontier.
pub open spec fn explore_spec(m: Map<Coord, RegionStatus>, coord: Coord) -> Map<Coord, RegionStatus> {
    if m[coord] == RegionStatus::Known {
        m
    } else {
        Map::new(
            |c: Coord| true,
            |c: Coord|
                if c == coord {
                    RegionStatus::Known
                } else if adjacent(coord, c) && m[c] == RegionStatus::Unknown {
                    RegionStatus::Frontier
                } else {
                    m[c]
                },
        )
    }
}

/// Every coordinate unknown.
pub open spec fn all_unknown() -> Map<Coord, RegionStatus> {
    Map::new(|c: Coord| true, |c: Coord| RegionStatus::Unknown)
}

/// A status for every coordinate.
pub open spec fn is_total(m: Map<Coord, RegionStatus>) -> bool {
    forall|c: Coord| #[trigger] m.dom().contains(c)
}

/// Whether a coordinate has status `s`.
pub open spec fn has_status(m: Map<Coord, RegionStatus>, s: RegionStatus) -> spec_fn(Coord) -> bool {
    |c: Coord| m[c] == s
}

/// The coordinates that have status `s`.
pub open spec fn region(m: Map<Coord, RegionStatus>, s: RegionStatus) -> Set<Coord> {
    Set::new(has_status(m, s))
}

/// The frontier is the set of coordinates adjacent to known territory but not yet
/// explored.
pub open spec fn frontier_is_boundary(m: Map<Coord, RegionStatus>) -> bool {
    forall|c: Coord|
        #[trigger] m[c] == RegionStatus::Frontier <==> (m[c] != RegionStatus::Known && exists|n: Coord|
            m[n] == RegionStatus::Known && #[trigger] adjacent(n, c))
}

/// Before anything is explored, nothing is on the frontier, so the frontier is the
/// boundary of known territory.
pub proof fn lemma_all_unknown_is_boundary()
    ensures
        frontier_is_boundary(all_unknown()),
        is_total(all_unknown()),
        region(all_unknown(), RegionStatus::Unknown) == Set::<Coord>::full(),
        region(all_unknown(), RegionStatus::Known) == Set::<Coord>::empty(),
        region(all_unknown(), RegionStatus::Frontier) == Set::<Coord>::empty(),
{
    assert(region(all_unknown(), RegionStatus::Unknown) =~= Set::<Coord>::full());
    assert(region(all_unknown(), RegionStatus::Known) =~= Set::<Coord>::empty());
    assert(region(all_unknown(), RegionStatus::Frontier) =~= Set::<Coord>::empty());
}

/// Exploring keeps the frontier exactly the set of unexplored coordinates that
/// are adjacent to explored ones.
pub proof fn lemma_explore_keeps_boundary(m: Map<Coord, RegionStatus>, coord: Coord)
    requires
        frontier_is_boundary(m),
    ensures
        frontier_is_boundary(explore_spec(m, coord)),
{
    if m[coord] != RegionStatus::Known {
        let m2 = explore_spec(m, coord);
        assert forall|c: Coord|
            #[trigger] m2[c] == RegionStatus::Frontier <==> (m2[c] != RegionStatus::Known
                && exists|n: Coord| m2[n] == RegionStatus::Known && #[trigger] adjacent(n, c)) by {
            lemma_neighbors_are_adjacent(coord, c);
            // What was known stays known.
            assert forall|n: Coord| m[n] == RegionStatus::Known implies #[trigger] m2[n]
                == RegionStatus::Known by {}
            // Apart from `coord`, only what was known is known now.
            assert forall|n: Coord| n != coord && #[trigger] m2[n] == RegionStatus::Known implies m[n]
                == RegionStatus::Known by {}
            if c == coord {
            } else if adjacent(coord, c) {
                if m2[c] != RegionStatus::Known {
                    assert(m2[coord] == RegionStatus::Known && adjacent(coord, c));
                }
            } else {
                assert(m2[c] == m[c]);
                if m[c] == RegionStatus::Frontier {
                    let n = choose|n: Coord| m[n] == RegionStatus::Known && #[trigger] adjacent(n, c);
                    assert(m2[n] == RegionStatus::Known && adjacent(n, c));
                }
                if m2[c] != RegionStatus::Known && exists|n: Coord|
                    m2[n] == RegionStatus::Known && #[trigger] adjacent(n, c) {
                    let n = choose|n: Coord| m2[n] == RegionStatus::Known && #[trigger] adjacent(n, c);
                    lemma_neighbors_are_adjacent(n, c);
                    assert(n != coord);
                    assert(m[n] == RegionStatus::Known && adjacent(n, c));
                }
            }
        }
    }
}

/// Exploring makes the coordinate known, adds exactly it to the known territory,
/// never unexplores anything, and exploring it again changes nothing.
pub proof fn lemma_explore_effect(m: Map<Coord, RegionStatus>, coord: Coord)
    ensures
        explore_spec(m, coord)[coord] == RegionStatus::Known,
        region(explore_spec(m, coord), RegionStatus::Known) == region(m, RegionStatus::Known).insert(
            coord,
        ),
        region(explore_spec(m, coord), RegionStatus::Known).len() == region(
            m,
            RegionStatus::Known,
        ).len() + if m[coord] == RegionStatus::Known {
            0int
        } else {
            1int
        },
        explore_spec(explore_spec(m, coord), coord) == explore_spec(m, coord),
        is_total(m) ==> is_total(explore_spec(m, coord)),
{
    let m2 = explore_spec(m, coord);
    lemma_coord_set_size(region(m, RegionStatus::Known));
    if m[coord] == RegionStatus::Known {
        assert(region(m, RegionStatus::Known).insert(coord) =~= region(m, RegionStatus::Known));
    } else {
        assert(region(m2, RegionStatus::Known) =~= region(m, RegionStatus::Known).insert(coord));
    }
}

/// Listing the coordinates with a status, in the order of `Coord::all`, names each
/// of them once and nothing else, so the listing is as long as their count.
pub proof fn lemma_region_listing(m: Map<Coord, RegionStatus>, s: RegionStatus)
    ensures
        all_coords().filter(has_status(m, s)).no_duplicates(),
        all_coords().filter(has_status(m, s)).to_set() == region(m, s),
        all_coords().filter(has_status(m, s)).len() == region(m, s).len(),
{
    lemma_listing(has_status(m, s));
}

/// The number of cells below `n` in each of three classes that split the cells
/// adds up to `n`.
proof fn lemma_count_split(
    p: spec_fn(int) -> bool,
    q: spec_fn(int) -> bool,
    r: spec_fn(int) -> bool,
    n: int,
)
    requires
        0 <= n,
        forall|i: int|
            0 <= i < n ==> (if #[trigger] p(i) {
                1int
            } else {
                0
            }) + (if q(i) {
                1int
            } else {
                0
            }) + (if r(i) {
                1int
            } else {
                0
            }) == 1,
    ensures
        count_cells(p, n) + count_cells(q, n) + count_cells(r, n) == n,
    decreases n,
{
    if n > 0 {
        lemma_count_split(p, q, r, n - 1);
        assert(p(n - 1) || !p(n - 1));
    }
}

/// Known, frontier and unknown coordinates are three disjoint sets that together
/// hold all nine coordinates.
pub proof fn lemma_regions_partition(m: Map<Coord, RegionStatus>)
    ensures
        region(m, RegionStatus::Known).disjoint(region(m, RegionStatus::Frontier)),
        region(m, RegionStatus::Known).disjoint(region(m, RegionStatus::Unknown)),
        region(m, RegionStatus::Frontier).disjoint(region(m, RegionStatus::Unknown)),
        region(m, RegionStatus::Known) + region(m, RegionStatus::Frontier) + region(
            m,
            RegionStatus::Unknown,
        ) == Set::<Coord>::full(),
        region(m, RegionStatus::Known).len() + region(m, RegionStatus::Frontier).len() + region(
            m,
            RegionStatus::Unknown,
        ).len() == 9,
{
    let k = region(m, RegionStatus::Known);
    let f = region(m, RegionStatus::Frontier);
    let u = region(m, RegionStatus::Unknown);
    assert(k + f + u =~= Set::<Coord>::full());
    lemma_coord_set_size(k);
    lemma_coord_set_size(f);
    lemma_coord_set_size(u);
    lemma_count_split(
        |i: int| k.contains(coord_at(i)),
        |i: int| f.contains(coord_at(i)),
        |i: int| u.contains(coord_at(i)),
        9,
    );
}

/// The frontier: boundary between known and unknown regions.
#[derive(Debug)]
pub struct Frontier {
    cells: [RegionStatus; 9],
}

impl View for Frontier {
    type V = Map<Coord, RegionStatus>;

    /// The status of each coordinate.
    closed spec fn view(&self) -> Map<Coord, RegionStatus> {
        statuses(self.cells)
    }
}

/// The ternary value one step of `d` away from `t`, wrapping around the axis.
fn shift(t: Ternary, d: Ternary) -> (r: Ternary)
    ensures
        r == wrap_step(t, d),
{
    let s: i8 = t.to_i8() + d.to_i8();
    let w: i8 = if s > 1 {
        s - 3
    } else if s < -1 {
        s + 3
    } else {
        s
    };
    match Ternary::from_i8(w) {
        Some(v) => v,
        None => {
            proof {
                assert(false);
            }
            t
        },
    }
}

/// The statuses that a cell array stands for.
spec fn statuses(cells: [RegionStatus; 9]) -> Map<Coord, RegionStatus> {
    Map::new(|c: Coord| true, |c: Coord| cells@[cell_index(c)])
}

impl Frontier {
    /// The frontier is always the boundary of the known territory.
    #[verifier::type_invariant]
    spec fn well_formed(self) -> bool {
        frontier_is_boundary(statuses(self.cells))
    }

    /// The coordinates that have been explored.
    pub open spec fn known(self) -> Set<Coord> {
        region(self@, RegionStatus::Known)
    }

    /// The coordinates next to known territory that are not explored yet.
    pub open spec fn frontier(self) -> Set<Coord> {
        region(self@, RegionStatus::Frontier)
    }

    /// The coordinates that are neither known nor on the frontier.
    pub open spec fn unknown(self) -> Set<Coord> {
        region(self@, RegionStatus::Unknown)
    }

    /// A frontier holds a status for every coordinate.
    pub proof fn lemma_view_total(self)
        ensures
            is_total(self@),
    {
    }

    /// Known, frontier and unknown coordinates are nine in all.
    pub proof fn lemma_counts_sum(self)
        ensures
            self.known().len() + self.frontier().len() + self.unknown().len() == 9,
    {
        lemma_regions_partition(self@);
    }

    pub fn new() -> (r: Self)
        ensures
            r@ == all_unknown(),
            frontier_is_boundary(r@),
    {
        let cells = [RegionStatus::Unknown; 9];
        proof {
            assert(statuses(cells) =~= all_unknown());
            lemma_all_unknown_is_boundary();
        }
        Self { cells }
    }

    /// Claim a coordinate as explored.
    pub fn explore(&mut self, coord: Coord)
        ensures
            final(self)@ == explore_spec(old(self)@, coord),
            frontier_is_boundary(final(self)@),
    {
        proof {
            use_type_invariant(&*self);
        }
        let ghost m = self@;
        let i: usize = coord.index();
        if !matches!(self.cells[i], RegionStatus::Known) {
            let mut cells = self.cells;
            cells[i] = RegionStatus::Known;
            // Neighbors of the newly known coord become frontier
            let ns = self.neighbors(coord);
            let mut k: usize = 0;
            while k < ns.len()
                invariant
                    ns@ == neighbor_seq(coord),
                    k <= 4,
                    m == self@,
                    m[coord] != RegionStatus::Known,
                    forall|c: Coord|
                        #![trigger cell_index(c)]
                        cells@[cell_index(c)] == if c == coord {
                            RegionStatus::Known
                        } else if ns@.take(k as int).contains(c) && m[c] == RegionStatus::Unknown {
                            RegionStatus::Frontier
                        } else {
                            m[c]
                        },
                decreases 4 - k,
            {
                let n = ns[k];
                let j: usize = n.index();
                proof {
                    assert(ns@.take(k + 1) =~= ns@.take(k as int).push(n));
                    lemma_neighbors_are_adjacent(coord, n);
                    assert forall|c: Coord| #![trigger cell_index(c)] cell_index(c) == j implies c == n by {
                        lemma_cell_index_bijective(c, 0);
                        lemma_cell_index_bijective(n, 0);
                    }
                }
                let ghost before = cells@;
                if matches!(cells[j], RegionStatus::Unknown) {
                    cells[j] = RegionStatus::Frontier;
                }
                proof {
                    assert forall|c: Coord|
                        #![trigger cell_index(c)]
                        cells@[cell_index(c)] == if c == coord {
                            RegionStatus::Known
                        } else if ns@.take(k + 1).contains(c) && m[c] == RegionStatus::Unknown {
                            RegionStatus::Frontier
                        } else {
                            m[c]
                        } by {
                        lemma_cell_index_bijective(c, 0);
                        lemma_cell_index_bijective(n, 0);
                        lemma_cell_index_bijective(coord, 0);
                        let t0 = ns@.take(k as int);
                        let t1 = ns@.take(k + 1);
                        if t0.contains(c) {
                            let w = choose|w: int| 0 <= w < t0.len() && t0[w] == c;
                            assert(t1[w] == c);
                        }
                        if c == n {
                            assert(t1[k as int] == c);
                        }
                        if t1.contains(c) && c != n {
                            let w = choose|w: int| 0 <= w < t1.len() && t1[w] == c;
                            assert(t0[w] == c);
                        }
                        if c != n {
                            assert(cells@[cell_index(c)] == before[cell_index(c)]);
                        }
                    }
                }
                k = k + 1;
            }
            assert(ns@.take(4) =~= ns@);
            proof {
                assert forall|c: Coord| #[trigger] statuses(cells)[c] == explore_spec(m, coord)[c] by {
                    lemma_neighbors_are_adjacent(coord, c);
                }
                assert(statuses(cells) =~= explore_spec(m, coord));
                lemma_explore_keeps_boundary(m, coord);
            }
            self.cells = cells;
        }
    }

    /// Get direct neighbors (Manhattan distance 1) in ternary space, with wrap.
    fn neighbors(&self, coord: Coord) -> (r: Vec<Coord>)
        ensures
            r@ == neighbor_seq(coord),
    {
        let mut result = Vec::new();
        result.push(Coord::new(shift(coord.x, Ternary::Neg), coord.y));
        result.push(Coord::new(coord.x, shift(coord.y, Ternary::Neg)));
        result.push(Coord::new(coord.x, shift(coord.y, Ternary::Pos)));
        result.push(Coord::new(shift(coord.x, Ternary::Pos), coord.y));
        assert(result@ =~= neighbor_seq(coord));
        result
    }

    /// The number of coordinates with status `s`.
    fn count_status(&self, s: RegionStatus) -> (r: usize)
        ensures
            r == region(self@, s).len(),
            r <= 9,
    {
        let ghost p = |j: int| self.cells@[j] == s;
        let mut k: usize = 0;
        let mut i: usize = 0;
        while i < 9
            invariant
                i <= 9,
                p == (|j: int| self.cells@[j] == s),
                k == count_cells(p, i as int),
                k <= i,
            decreases 9 - i,
        {
            assert(count_cells(p, i + 1) == count_cells(p, i as int) + if p(i as int) {
                1nat
            } else {
                0nat
            });
            if self.cells[i] == s {
                k = k + 1;
            }
            i = i + 1;
        }
        proof {
            lemma_coord_set_len(p);
            assert(region(self@, s) =~= Set::new(|c: Coord| p(cell_index(c))));
        }
        k
    }

    /// The coordinates with status `s`, in the order of `Coord::all`.
    fn coords_with(&self, s: RegionStatus) -> (r: Vec<Coord>)
        ensures
            r@ == all_coords().filter(has_status(self@, s)),
    {
        let ghost pred = has_status(self@, s);
        let mut result: Vec<Coord> = Vec::new();
        let mut i: usize = 0;
        while i < 9
            invariant
                i <= 9,
                pred == has_status(self@, s),
                result@ == all_coords().take(i as int).filter(pred),
            decreases 9 - i,
        {
            let c = Coord::at(i);
            proof {
                lemma_cell_index_bijective(c, i as int);
                assert(all_coords().take(i + 1) =~= all_coords().take(i as int).push(c));
                all_coords().take(i as int).lemma_filter_push(c, pred);
            }
            if self.cells[i] == s {
                result.push(c);
            }
            i = i + 1;
        }
        assert(all_coords().take(9) =~= all_coords());
        result
    }

    pub fn known_count(&self) -> (r: usize)
        ensures
            r == self.known().len(),
    {
        self.count_status(RegionStatus::Known)
    }

    pub fn frontier_count(&self) -> (r: usize)
        ensures
            r == self.frontier().len(),
    {
        self.count_status(RegionStatus::Frontier)
    }

    pub fn unknown_count(&self) -> (r: usize)
        ensures
            r == self.unknown().len(),
    {
        self.count_status(RegionStatus::Unknown)
    }

    /// The frontier coordinates, each once, in the order of `Coord::all`.
    pub fn frontier_coords(&self) -> (r: Vec<Coord>)
        ensures
            r@ == all_coords().filter(has_status(self@, RegionStatus::Frontier)),
    {
        self.coords_with(RegionStatus::Frontier)
    }

    /// The known coordinates, each once, in the order of `Coord::all`.
    pub fn known_coords(&self) -> (r: Vec<Coord>)
        ensures
            r@ == all_coords().filter(has_status(self@, RegionStatus::Known)),
    {
        self.coords_with(RegionStatus::Known)
    }

    pub fn status(&self, coord: Coord) -> (r: RegionStatus)
        ensures
            r == self@[coord],
            frontier_is_boundary(self@),
    {
        proof {
            use_type_invariant(self);
        }
        self.cells[coord.index()]
    }

    /// Reset: return everything to unknown.
    pub fn reset(&mut self)
        ensures
            final(self)@ == all_unknown(),
            frontier_is_boundary(final(self)@),
    {
        *self = Frontier::new();
    }
}

impl Clone for Frontier {
    fn clone(&self) -> (r: Self)
        ensures
            r@ == self@,
    {
        proof {
            use_type_invariant(self);
        }
        Frontier { cells: self.cells }
    }
}

impl Default for Frontier {
    fn default() -> (r: Self)
        ensures
            r@ == all_unknown(),
            frontier_is_boundary(r@),
    {
        Self::new()
    }
}

} // verus!
