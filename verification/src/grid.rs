//! Ternary values, coordinates of the 3×3 state space, and the numbering of its cells.

use vstd::prelude::*;

verus! {

/// A ternary value: Negative (-1), Neutral (0), or Positive (+1).
#[derive(Debug, Clone, Copy, PartialEq, Eq, Hash, Structural)]
pub enum Ternary {
    Neg,
    Zero,
    Pos,
}

/// The integer that a ternary value stands for.
pub open spec fn ternary_value(t: Ternary) -> int {
    match t {
        Ternary::Neg => -1,
        Ternary::Zero => 0,
        Ternary::Pos => 1,
    }
}

/// The ternary value that stands for `v`, if there is one.
pub open spec fn ternary_of(v: int) -> Option<Ternary> {
    if v == -1 {
        Some(Ternary::Neg)
    } else if v == 0 {
        Some(Ternary::Zero)
    } else if v == 1 {
        Some(Ternary::Pos)
    } else {
        None
    }
}

impl Ternary {
    pub fn from_i8(v: i8) -> (r: Option<Self>)
        ensures
            r == ternary_of(v as int),
    {
        match v {
            -1 => Some(Ternary::Neg),
            0 => Some(Ternary::Zero),
            1 => Some(Ternary::Pos),
            _ => None,
        }
    }

    pub fn to_i8(self) -> (r: i8)
        ensures
            r as int == ternary_value(self),
    {
        match self {
            Ternary::Neg => -1,
            Ternary::Zero => 0,
            Ternary::Pos => 1,
        }
    }
}

/// Converting a ternary value to its integer and back gives the value again, and
/// every integer that converts to a ternary value is that value's integer.
pub proof fn lemma_ternary_round_trip(t: Ternary, v: int)
    ensures
        ternary_of(ternary_value(t)) == Some(t),
        ternary_of(v) == Some(t) ==> ternary_value(t) == v,
        ternary_of(v) is Some <==> -1 <= v <= 1,
        ternary_value(Ternary::Neg) == -1,
        ternary_value(Ternary::Zero) == 0,
        ternary_value(Ternary::Pos) == 1,
{
}

/// Coordinates in a 2D state space, each axis is ternary.
#[derive(Debug, Clone, Copy, PartialEq, Eq, Hash, Structural)]
pub struct Coord {
    pub x: Ternary,
    pub y: Ternary,
}

/// Position of a ternary value on an axis: Neg, Zero, Pos are 0, 1, 2.
pub open spec fn axis_index(t: Ternary) -> int {
    ternary_value(t) + 1
}

/// The ternary value at position `i` (0, 1 or 2) of an axis.
pub open spec fn axis_at(i: int) -> Ternary {
    if i <= 0 {
        Ternary::Neg
    } else if i == 1 {
        Ternary::Zero
    } else {
        Ternary::Pos
    }
}

/// The number of a coordinate's cell, 0 to 8, with `x` as the major axis.
pub open spec fn cell_index(c: Coord) -> int {
    3 * axis_index(c.x) + axis_index(c.y)
}

/// The coordinate of cell number `i`.
pub open spec fn coord_at(i: int) -> Coord {
    Coord { x: axis_at(i / 3), y: axis_at(i % 3) }
}

/// All nine coordinates, `x` in the outer order Neg, Zero, Pos and `y` in the inner.
pub open spec fn all_coords() -> Seq<Coord> {
    Seq::new(9, |i: int| coord_at(i))
}

/// Cell numbers and coordinates are in one-to-one correspondence.
pub proof fn lemma_cell_index_bijective(c: Coord, i: int)
    ensures
        0 <= cell_index(c) < 9,
        coord_at(cell_index(c)) == c,
        0 <= i < 9 ==> cell_index(coord_at(i)) == i,
{
}

/// Each coordinate occurs exactly once among all nine.
pub proof fn lemma_all_coords_complete(c: Coord)
    ensures
        all_coords().len() == 9,
        all_coords().contains(c),
        all_coords()[cell_index(c)] == c,
        all_coords().no_duplicates(),
{
    lemma_cell_index_bijective(c, 0);
    assert(all_coords()[cell_index(c)] == c);
    assert forall|i: int, j: int| 0 <= i < all_coords().len() && 0 <= j < all_coords().len() && i != j
        implies all_coords()[i] != all_coords()[j] by {
        lemma_cell_index_bijective(c, i);
        lemma_cell_index_bijective(c, j);
    }
}

impl Coord {
    pub fn new(x: Ternary, y: Ternary) -> (r: Self)
        ensures
            r.x == x,
            r.y == y,
    {
        Self { x, y }
    }

    /// All 9 possible coordinates in ternary 2D space.
    pub fn all() -> (r: Vec<Coord>)
        ensures
            r@ == all_coords(),
    {
        let vals = [Ternary::Neg, Ternary::Zero, Ternary::Pos];
        let mut coords: Vec<Coord> = Vec::with_capacity(9);
        let mut i: usize = 0;
        while i < 3
            invariant
                i <= 3,
                vals@ == seq![Ternary::Neg, Ternary::Zero, Ternary::Pos],
                coords@ =~= all_coords().take(3 * i),
            decreases 3 - i,
        {
            let mut j: usize = 0;
            while j < 3
                invariant
                    i < 3,
                    j <= 3,
                    vals@ == seq![Ternary::Neg, Ternary::Zero, Ternary::Pos],
                    coords@ =~= all_coords().take(3 * i + j),
                decreases 3 - j,
            {
                coords.push(Coord::new(vals[i], vals[j]));
                assert(coord_at(3 * i + j) == Coord { x: vals@[i as int], y: vals@[j as int] });
                assert(coords@ =~= all_coords().take(3 * i + j + 1));
                j = j + 1;
            }
            i = i + 1;
        }
        coords
    }

    /// The cell number of this coordinate.
    pub(crate) fn index(self) -> (r: usize)
        ensures
            r as int == cell_index(self),
            r < 9,
    {
        let x: usize = match self.x {
            Ternary::Neg => 0,
            Ternary::Zero => 1,
            Ternary::Pos => 2,
        };
        let y: usize = match self.y {
            Ternary::Neg => 0,
            Ternary::Zero => 1,
            Ternary::Pos => 2,
        };
        3 * x + y
    }

    /// The coordinate of cell number `i`.
    pub(crate) fn at(i: usize) -> (r: Coord)
        requires
            i < 9,
        ensures
            r == coord_at(i as int),
    {
        let vals = [Ternary::Neg, Ternary::Zero, Ternary::Pos];
        assert(vals@ == seq![Ternary::Neg, Ternary::Zero, Ternary::Pos]);
        Coord { x: vals[i / 3], y: vals[i % 3] }
    }
}

/// The names held in the occupied cells, by coordinate.
pub open spec fn names_at(cells: Seq<Option<String>>) -> Map<Coord, Seq<char>> {
    Map::new(|c: Coord| cells[cell_index(c)] is Some, |c: Coord| cells[cell_index(c)]->0@)
}

/// The coordinates that `name` holds.
pub open spec fn held_by(m: Map<Coord, Seq<char>>, name: Seq<char>) -> Set<Coord> {
    Set::new(|c: Coord| m.contains_key(c) && m[c] == name)
}

/// Whether cell `k` holds `name`.
pub open spec fn holds_name(cells: Seq<Option<String>>, name: Seq<char>) -> spec_fn(int) -> bool {
    |k: int| cells[k] matches Some(s) && s@ == name
}

/// Whether cell `k` holds a name.
pub open spec fn occupied(cells: Seq<Option<String>>) -> spec_fn(int) -> bool {
    |k: int| cells[k] is Some
}

/// The number of cell numbers `i` with `0 <= i < n` on which `p` holds.
pub open spec fn count_cells(p: spec_fn(int) -> bool, n: int) -> nat
    decreases n,
{
    if n <= 0 {
        0
    } else {
        count_cells(p, n - 1) + if p(n - 1) {
            1nat
        } else {
            0nat
        }
    }
}

/// A count over the first `n` cells is at most `n`.
pub proof fn lemma_count_cells_bound(p: spec_fn(int) -> bool, n: int)
    requires
        0 <= n,
    ensures
        count_cells(p, n) <= n,
    decreases n,
{
    if n > 0 {
        lemma_count_cells_bound(p, n - 1);
    }
}

/// Counts agree for predicates that agree on the first `n` cells.
pub proof fn lemma_count_cells_ext(p: spec_fn(int) -> bool, q: spec_fn(int) -> bool, n: int)
    requires
        forall|i: int| 0 <= i < n ==> #[trigger] p(i) == q(i),
    ensures
        count_cells(p, n) == count_cells(q, n),
    decreases n,
{
    if n > 0 {
        lemma_count_cells_ext(p, q, n - 1);
    }
}

/// With no cell satisfying `p`, the count is zero.
pub proof fn lemma_count_cells_none(p: spec_fn(int) -> bool, n: int)
    requires
        forall|i: int| 0 <= i < n ==> !#[trigger] p(i),
    ensures
        count_cells(p, n) == 0,
    decreases n,
{
    if n > 0 {
        lemma_count_cells_none(p, n - 1);
    }
}

/// Turning on `p` at one cell `j` below `n`, and nowhere else, adds one to the count.
pub proof fn lemma_count_cells_add_one(p: spec_fn(int) -> bool, q: spec_fn(int) -> bool, j: int, n: int)
    requires
        0 <= j < n,
        !p(j),
        q(j),
        forall|i: int| 0 <= i < n && i != j ==> #[trigger] p(i) == q(i),
    ensures
        count_cells(q, n) == count_cells(p, n) + 1,
    decreases n,
{
    if n - 1 == j {
        lemma_count_cells_ext(p, q, n - 1);
    } else {
        lemma_count_cells_add_one(p, q, j, n - 1);
    }
}

/// Coordinates whose cell number is below `n` and satisfies `p`.
spec fn cells_below(p: spec_fn(int) -> bool, n: int) -> Set<Coord> {
    Set::new(|c: Coord| cell_index(c) < n && p(cell_index(c)))
}

proof fn lemma_cells_below(p: spec_fn(int) -> bool, n: int)
    requires
        0 <= n <= 9,
    ensures
        cells_below(p, n).finite(),
        cells_below(p, n).len() == count_cells(p, n),
    decreases n,
{
    if n == 0 {
        assert(cells_below(p, 0) =~= Set::empty());
    } else {
        lemma_cells_below(p, n - 1);
        let c = coord_at(n - 1);
        lemma_cell_index_bijective(c, n - 1);
        if p(n - 1) {
            assert forall|d: Coord| #[trigger] cells_below(p, n).contains(d) == cells_below(
                p,
                n - 1,
            ).insert(c).contains(d) by {
                lemma_cell_index_bijective(d, n - 1);
            }
            assert(cells_below(p, n) =~= cells_below(p, n - 1).insert(c));
            assert(!cells_below(p, n - 1).contains(c));
        } else {
            assert(cells_below(p, n) =~= cells_below(p, n - 1));
        }
    }
}

/// The set of coordinates whose cell number satisfies `p` is finite, and its size
/// is the number of cell numbers below nine that satisfy `p`.
pub proof fn lemma_coord_set_len(p: spec_fn(int) -> bool)
    ensures
        Set::new(|c: Coord| p(cell_index(c))).finite(),
        Set::new(|c: Coord| p(cell_index(c))).len() == count_cells(p, 9),
{
    lemma_cells_below(p, 9);
    let s = Set::new(|c: Coord| p(cell_index(c)));
    assert forall|c: Coord| #[trigger] s.contains(c) == cells_below(p, 9).contains(c) by {
        lemma_cell_index_bijective(c, 0);
    }
    assert(s =~= cells_below(p, 9));
}

/// Any set of coordinates is finite, and its size is the number of cells whose
/// coordinate is in it.
pub proof fn lemma_coord_set_size(s: Set<Coord>)
    ensures
        s.finite(),
        s.len() == count_cells(|i: int| s.contains(coord_at(i)), 9),
        s.len() <= 9,
{
    let p = |i: int| s.contains(coord_at(i));
    lemma_coord_set_len(p);
    let t = Set::new(|c: Coord| p(cell_index(c)));
    assert forall|c: Coord| #[trigger] s.contains(c) == t.contains(c) by {
        lemma_cell_index_bijective(c, 0);
    }
    assert(s =~= t);
    lemma_count_cells_bound(p, 9);
}

/// The first `n` coordinates that satisfy `p`: as many as the cells below `n` whose
/// coordinate satisfies `p`, exactly those coordinates, each once.
proof fn lemma_listing_prefix(p: spec_fn(Coord) -> bool, n: int)
    requires
        0 <= n <= 9,
    ensures
        all_coords().take(n).filter(p).len() == count_cells(|i: int| p(coord_at(i)), n),
        forall|c: Coord| #[trigger]
            all_coords().take(n).filter(p).contains(c) <==> (cell_index(c) < n && p(c)),
        all_coords().take(n).filter(p).no_duplicates(),
    decreases n,
{
    let q = |i: int| p(coord_at(i));
    let s = all_coords().take(n).filter(p);
    if n == 0 {
        assert(all_coords().take(0) =~= Seq::<Coord>::empty());
        assert(s =~= Seq::<Coord>::empty());
        assert forall|c: Coord| #[trigger] s.contains(c) <==> (cell_index(c) < n && p(c)) by {
            lemma_cell_index_bijective(c, 0);
        }
    } else {
        lemma_listing_prefix(p, n - 1);
        let c = coord_at(n - 1);
        let prev = all_coords().take(n - 1);
        lemma_cell_index_bijective(c, n - 1);
        assert(all_coords().take(n) =~= prev.push(c));
        prev.lemma_filter_push(c, p);
        let t = prev.filter(p);
        assert forall|d: Coord| #[trigger] s.contains(d) <==> (cell_index(d) < n && p(d)) by {
            lemma_cell_index_bijective(d, n - 1);
            if p(c) {
                assert(s == t.push(c));
                if t.contains(d) {
                    let w = choose|w: int| 0 <= w < t.len() && t[w] == d;
                    assert(s[w] == d);
                }
                if d == c {
                    assert(s[t.len() as int] == d);
                }
                if s.contains(d) && d != c {
                    let w = choose|w: int| 0 <= w < s.len() && s[w] == d;
                    assert(t[w] == d);
                }
            }
        }
        if p(c) {
            assert(!t.contains(c));
            assert forall|a: int, b: int| 0 <= a < s.len() && 0 <= b < s.len() && a != b implies s[a]
                != s[b] by {
                if a < t.len() && b < t.len() {
                } else if a < t.len() {
                    assert(t.contains(s[a]));
                } else {
                    assert(t.contains(s[b]));
                }
            }
        }
    }
}

/// Listing the coordinates that satisfy `p` in the order of `all_coords` names
/// each of them once and nothing else.
pub proof fn lemma_listing(p: spec_fn(Coord) -> bool)
    ensures
        all_coords().filter(p).len() == Set::new(p).len(),
        forall|c: Coord| #[trigger] all_coords().filter(p).contains(c) <==> p(c),
        all_coords().filter(p).no_duplicates(),
        all_coords().filter(p).to_set() == Set::new(p),
{
    lemma_listing_prefix(p, 9);
    assert(all_coords().take(9) =~= all_coords());
    assert forall|c: Coord| #[trigger] all_coords().filter(p).contains(c) <==> p(c) by {
        lemma_cell_index_bijective(c, 0);
    }
    lemma_coord_set_size(Set::new(p));
    lemma_count_cells_ext(|i: int| p(coord_at(i)), |i: int| Set::new(p).contains(coord_at(i)), 9);
    assert(all_coords().filter(p).to_set() =~= Set::new(p));
}

/// Cells that satisfy `p` and cells that do not add up to all cells.
pub proof fn lemma_count_complement(p: spec_fn(int) -> bool, q: spec_fn(int) -> bool, n: int)
    requires
        0 <= n,
        forall|i: int| 0 <= i < n ==> #[trigger] q(i) == !p(i),
    ensures
        count_cells(p, n) + count_cells(q, n) == n,
    decreases n,
{
    if n > 0 {
        lemma_count_complement(p, q, n - 1);
    }
}

/// The coordinates that hold `name` are as many as the cells that hold it.
pub proof fn lemma_held_by_len(cells: Seq<Option<String>>, name: Seq<char>)
    requires
        cells.len() == 9,
    ensures
        held_by(names_at(cells), name).finite(),
        held_by(names_at(cells), name).len() == count_cells(holds_name(cells, name), 9),
{
    let p = holds_name(cells, name);
    lemma_coord_set_len(p);
    assert(held_by(names_at(cells), name) =~= Set::new(|c: Coord| p(cell_index(c))));
}

/// The occupied coordinates are as many as the occupied cells.
pub proof fn lemma_occupied_len(cells: Seq<Option<String>>)
    requires
        cells.len() == 9,
    ensures
        names_at(cells).dom().finite(),
        names_at(cells).len() == count_cells(occupied(cells), 9),
{
    let p = occupied(cells);
    lemma_coord_set_len(p);
    assert(names_at(cells).dom() =~= Set::new(|c: Coord| p(cell_index(c))));
}

/// The number of cells that hold `name`.
pub(crate) fn count_named(cells: &[Option<String>; 9], name: &String) -> (r: usize)
    ensures
        r == held_by(names_at(cells@), name@).len(),
        r <= 9,
{
    let ghost p = holds_name(cells@, name@);
    let mut k: usize = 0;
    let mut i: usize = 0;
    while i < 9
        invariant
            i <= 9,
            p == holds_name(cells@, name@),
            k == count_cells(p, i as int),
            k <= i,
        decreases 9 - i,
    {
        assert(count_cells(p, i + 1) == count_cells(p, i as int) + if p(i as int) {
            1nat
        } else {
            0nat
        });
        let hit = match &cells[i] {
            Some(s) => *s == *name,
            None => false,
        };
        if hit {
            k = k + 1;
        }
        i = i + 1;
    }
    proof {
        lemma_held_by_len(cells@, name@);
    }
    k
}

/// The number of cells that hold a name.
pub(crate) fn count_occupied(cells: &[Option<String>; 9]) -> (r: usize)
    ensures
        r == names_at(cells@).len(),
        r <= 9,
{
    let ghost p = occupied(cells@);
    let mut k: usize = 0;
    let mut i: usize = 0;
    while i < 9
        invariant
            i <= 9,
            p == occupied(cells@),
            k == count_cells(p, i as int),
            k <= i,
        decreases 9 - i,
    {
        assert(count_cells(p, i + 1) == count_cells(p, i as int) + if p(i as int) {
            1nat
        } else {
            0nat
        });
        if cells[i].is_some() {
            k = k + 1;
        }
        i = i + 1;
    }
    proof {
        lemma_occupied_len(cells@);
    }
    k
}

/// The name held at `coord`, if any.
pub(crate) fn name_at(cells: &[Option<String>; 9], coord: Coord) -> (r: Option<&str>)
    ensures
        r is Some <==> names_at(cells@).contains_key(coord),
        r matches Some(s) ==> s@ == names_at(cells@)[coord],
{
    match &cells[coord.index()] {
        Some(s) => Some(s.as_str()),
        None => None,
    }
}

} // verus!
