//! Pioneer bonuses: the first explorer to discover a region is rewarded.

use vstd::prelude::*;

use crate::grid::{
    cell_index, count_cells, count_occupied, held_by, holds_name, lemma_cell_index_bijective,
    lemma_count_cells_add_one, lemma_count_cells_bound, lemma_count_cells_ext,
    lemma_count_cells_none, lemma_coord_set_size, lemma_held_by_len, name_at, names_at, Coord,
};

verus! {

/// The first discoverers after `explorer` reports `coord`: the first report of a
/// coordinate wins, later ones change nothing.
pub open spec fn record_spec(first: Map<Coord, Seq<char>>, coord: Coord, explorer: Seq<char>) -> Map<
    Coord,
    Seq<char>,
> {
    if first.contains_key(coord) {
        first
    } else {
        first.insert(coord, explorer)
    }
}

/// Tracks which explorer first discovered each region (pioneer bonus).
#[derive(Debug)]
pub struct PioneerBonus {
    first_discoverer: [Option<String>; 9],
    bonuses: Vec<(String, u32)>,
}

impl View for PioneerBonus {
    type V = Map<Coord, Seq<char>>;

    /// The first discoverer of each discovered coordinate.
    closed spec fn view(&self) -> Map<Coord, Seq<char>> {
        names_at(self.first_discoverer@)
    }
}

impl PioneerBonus {
    /// Each explorer with a bonus is listed once, with as many bonus points as
    /// regions that it pioneered, and every pioneer is listed.
    #[verifier::type_invariant]
    spec fn well_formed(self) -> bool {
        let cells = self.first_discoverer@;
        let bonuses = self.bonuses@;
        &&& forall|i: int, j: int|
            0 <= i < j < bonuses.len() ==> #[trigger] bonuses[i].0@ != #[trigger] bonuses[j].0@
        &&& forall|i: int|
            0 <= i < bonuses.len() ==> #[trigger] bonuses[i].1 == count_cells(
                holds_name(cells, bonuses[i].0@),
                9,
            )
        &&& forall|k: int|
            0 <= k < 9 && #[trigger] cells[k] is Some ==> exists|i: int|
                0 <= i < bonuses.len() && #[trigger] bonuses[i].0@ == cells[k]->0@
    }

    pub fn new() -> (r: Self)
        ensures
            r@ == Map::<Coord, Seq<char>>::empty(),
    {
        let r = Self {
            first_discoverer: [None, None, None, None, None, None, None, None, None],
            bonuses: Vec::new(),
        };
        assert(r@ =~= Map::<Coord, Seq<char>>::empty());
        r
    }

    /// Record a discovery. Returns true if this explorer was first.
    pub fn record(&mut self, coord: Coord, explorer: &str) -> (r: bool)
        ensures
            r == !old(self)@.contains_key(coord),
            final(self)@ == record_spec(old(self)@, coord, explorer@),
    {
        let i: usize = coord.index();
        if self.first_discoverer[i].is_some() {
            return false;
        }
        let mut previous = PioneerBonus::new();
        std::mem::swap(self, &mut previous);
        proof {
            use_type_invariant(&previous);
        }
        let ghost cells0 = previous.first_discoverer@;
        let ghost bonuses0 = previous.bonuses@;
        let PioneerBonus { first_discoverer: mut first, bonuses: mut bonuses } = previous;
        let name = explorer.to_owned();
        first[i] = Some(name.clone());
        let ghost cells1 = first@;
        proof {
            // Only the count for `name` changes, by one.
            assert forall|e: Seq<char>| e != name@ implies count_cells(holds_name(cells1, e), 9)
                == count_cells(holds_name(cells0, e), 9) by {
                lemma_count_cells_ext(holds_name(cells1, e), holds_name(cells0, e), 9);
            }
            lemma_count_cells_add_one(holds_name(cells0, name@), holds_name(cells1, name@), i as int, 9);
        }

        // Find the explorer's entry.
        let mut j: usize = 0;
        let mut found = false;
        while j < bonuses.len() && !found
            invariant
                bonuses@ == bonuses0,
                j <= bonuses.len(),
                forall|jj: int| 0 <= jj < j ==> #[trigger] bonuses@[jj].0@ != name@,
                found ==> j < bonuses.len() && bonuses@[j as int].0@ == name@,
            decreases bonuses.len() - j + if found {
                0int
            } else {
                1int
            },
        {
            if bonuses[j].0 == name {
                found = true;
            } else {
                j = j + 1;
            }
        }

        if found {
            let points: u32 = bonuses[j].1;
            proof {
                lemma_count_cells_bound(holds_name(cells0, name@), 9);
            }
            let entry_name = bonuses[j].0.clone();
            bonuses.set(j, (entry_name, points + 1));
        } else {
            proof {
                assert forall|k: int| 0 <= k < 9 implies !#[trigger] holds_name(cells0, name@)(k) by {
                    if cells0[k] is Some && cells0[k]->0@ == name@ {
                        let w = choose|w: int|
                            0 <= w < bonuses0.len() && #[trigger] bonuses0[w].0@ == cells0[k]->0@;
                        assert(bonuses0[w].0@ == name@);
                    }
                }
                lemma_count_cells_none(holds_name(cells0, name@), 9);
            }
            bonuses.push((name, 1));
        }

        proof {
            let bonuses1 = bonuses@;
            assert forall|k: int|
                0 <= k < 9 && #[trigger] cells1[k] is Some implies exists|w: int|
                    0 <= w < bonuses1.len() && #[trigger] bonuses1[w].0@ == cells1[k]->0@ by {
                if k == i {
                    if found {
                        assert(bonuses1[j as int].0@ == cells1[k]->0@);
                    } else {
                        assert(bonuses1[bonuses1.len() - 1].0@ == cells1[k]->0@);
                    }
                } else {
                    assert(cells1[k] == cells0[k]);
                    let w = choose|w: int|
                        0 <= w < bonuses0.len() && #[trigger] bonuses0[w].0@ == cells0[k]->0@;
                    assert(bonuses1[w].0@ == bonuses0[w].0@);
                }
            }
            assert forall|w: int| 0 <= w < bonuses1.len() implies #[trigger] bonuses1[w].1
                == count_cells(holds_name(cells1, bonuses1[w].0@), 9) by {
                if w < bonuses0.len() {
                    assert(bonuses1[w].0@ == bonuses0[w].0@);
                }
            }
            // Names stay distinct.
            assert(forall|a: int, b: int|
                0 <= a < b < bonuses1.len() ==> #[trigger] bonuses1[a].0@ != #[trigger] bonuses1[b].0@);
            let updated = PioneerBonus { first_discoverer: first, bonuses: bonuses };
            assert(updated.first_discoverer@ == cells1);
            assert(updated.bonuses@ == bonuses1);
            assert(updated.well_formed());
        }
        *self = PioneerBonus { first_discoverer: first, bonuses };
        proof {
            assert forall|c: Coord| cell_index(c) == i implies c == coord by {
                lemma_cell_index_bijective(c, 0);
                lemma_cell_index_bijective(coord, 0);
            }
            assert(self@ =~= old(self)@.insert(coord, explorer@));
        }
        true
    }

    /// Get the pioneer bonus count for an explorer.
    pub fn bonus(&self, explorer: &str) -> (r: u32)
        ensures
            r == held_by(self@, explorer@).len(),
    {
        proof {
            use_type_invariant(self);
            lemma_held_by_len(self.first_discoverer@, explorer@);
        }
        let name = explorer.to_owned();
        let mut j: usize = 0;
        #[verifier::loop_isolation(false)]
        while j < self.bonuses.len()
            invariant
                name@ == explorer@,
                j <= self.bonuses.len(),
                forall|jj: int| 0 <= jj < j ==> #[trigger] self.bonuses@[jj].0@ != explorer@,
            decreases self.bonuses.len() - j,
        {
            if self.bonuses[j].0 == name {
                let points: u32 = self.bonuses[j].1;
                assert(points == self.bonuses@[j as int].1);
                return points;
            }
            j = j + 1;
        }
        proof {
            let cells = self.first_discoverer@;
            assert forall|k: int| 0 <= k < 9 implies !#[trigger] holds_name(cells, explorer@)(k) by {
                if cells[k] is Some && cells[k]->0@ == explorer@ {
                    let w = choose|w: int|
                        0 <= w < self.bonuses@.len() && #[trigger] self.bonuses@[w].0@ == cells[k]->0@;
                }
            }
            lemma_count_cells_none(holds_name(cells, explorer@), 9);
        }
        0
    }

    /// Total distinct regions with pioneer bonuses.
    pub fn total_pioneered(&self) -> (r: usize)
        ensures
            r == self@.len(),
    {
        count_occupied(&self.first_discoverer)
    }

    /// Who discovered a coordinate first?
    pub fn discoverer_of(&self, coord: Coord) -> (r: Option<&str>)
        ensures
            r is Some <==> self@.contains_key(coord),
            r matches Some(s) ==> s@ == self@[coord],
    {
        name_at(&self.first_discoverer, coord)
    }
}

impl Clone for PioneerBonus {
    fn clone(&self) -> (r: Self)
        ensures
            r@ == self@,
            forall|e: Seq<char>| #[trigger] held_by(r@, e) == held_by(self@, e),
    {
        proof {
            use_type_invariant(self);
        }
        let mut first: [Option<String>; 9] = [None, None, None, None, None, None, None, None, None];
        let mut i: usize = 0;
        while i < 9
            invariant
                i <= 9,
                forall|k: int| 0 <= k < i ==> first@[k] == self.first_discoverer@[k],
            decreases 9 - i,
        {
            let cell = match &self.first_discoverer[i] {
                Some(s) => Some(s.clone()),
                None => None,
            };
            first[i] = cell;
            i = i + 1;
        }
        let mut bonuses: Vec<(String, u32)> = Vec::new();
        let mut j: usize = 0;
        while j < self.bonuses.len()
            invariant
                j <= self.bonuses.len(),
                bonuses@ == self.bonuses@.take(j as int),
            decreases self.bonuses.len() - j,
        {
            let entry = (self.bonuses[j].0.clone(), self.bonuses[j].1);
            bonuses.push(entry);
            assert(self.bonuses@.take(j + 1) =~= self.bonuses@.take(j as int).push(entry));
            j = j + 1;
        }
        proof {
            assert(first@ =~= self.first_discoverer@);
            assert(self.bonuses@.take(self.bonuses.len() as int) =~= self.bonuses@);
            let copy = PioneerBonus { first_discoverer: first, bonuses: bonuses };
            assert(copy.first_discoverer@ == self.first_discoverer@);
            assert(copy.bonuses@ == self.bonuses@);
            assert(copy.well_formed());
        }
        PioneerBonus { first_discoverer: first, bonuses }
    }
}

impl Default for PioneerBonus {
    fn default() -> (r: Self)
        ensures
            r@ == Map::<Coord, Seq<char>>::empty(),
    {
        Self::new()
    }
}

/// The first report of a coordinate decides its discoverer for good: a second
/// report, by anyone, changes nothing.
pub proof fn lemma_first_discoverer_wins(
    first: Map<Coord, Seq<char>>,
    coord: Coord,
    a: Seq<char>,
    b: Seq<char>,
)
    ensures
        record_spec(first, coord, a).contains_key(coord),
        !first.contains_key(coord) ==> record_spec(first, coord, a)[coord] == a,
        record_spec(record_spec(first, coord, a), coord, b) == record_spec(first, coord, a),
{
}

/// A first report earns its explorer one bonus point and one more pioneered
/// region; nobody else's bonus changes, and a repeated report earns nothing.
pub proof fn lemma_record_awards_bonus(
    first: Map<Coord, Seq<char>>,
    coord: Coord,
    explorer: Seq<char>,
    other: Seq<char>,
)
    ensures
        !first.contains_key(coord) ==> held_by(record_spec(first, coord, explorer), explorer).len()
            == held_by(first, explorer).len() + 1,
        !first.contains_key(coord) ==> record_spec(first, coord, explorer).len() == first.len() + 1,
        other != explorer ==> held_by(record_spec(first, coord, explorer), other) == held_by(
            first,
            other,
        ),
        first.contains_key(coord) ==> record_spec(first, coord, explorer) == first,
{
    let after = record_spec(first, coord, explorer);
    if !first.contains_key(coord) {
        lemma_coord_set_size(held_by(first, explorer));
        lemma_coord_set_size(first.dom());
        assert(held_by(after, explorer) =~= held_by(first, explorer).insert(coord));
        assert(after.dom() =~= first.dom().insert(coord));
    }
    if other != explorer {
        assert(held_by(after, other) =~= held_by(first, other));
    }
}

/// The bonuses of the explorers in `names`, added up.
pub open spec fn bonus_total(first: Map<Coord, Seq<char>>, names: Seq<Seq<char>>) -> nat
    decreases names.len(),
{
    if names.len() == 0 {
        0
    } else {
        bonus_total(first, names.drop_last()) + held_by(first, names.last()).len()
    }
}

/// The coordinates first discovered by one of the explorers in `names`.
spec fn pioneered_by_any(first: Map<Coord, Seq<char>>, names: Seq<Seq<char>>) -> Set<Coord> {
    Set::new(|c: Coord| first.contains_key(c) && names.contains(first[c]))
}

proof fn lemma_bonus_total_counts(first: Map<Coord, Seq<char>>, names: Seq<Seq<char>>)
    requires
        names.no_duplicates(),
    ensures
        bonus_total(first, names) == pioneered_by_any(first, names).len(),
    decreases names.len(),
{
    if names.len() == 0 {
        assert(pioneered_by_any(first, names) =~= Set::<Coord>::empty());
    } else {
        let prefix = names.drop_last();
        let e = names.last();
        assert(prefix.no_duplicates()) by {
            assert forall|a: int, b: int| 0 <= a < prefix.len() && 0 <= b < prefix.len() && a != b
                implies prefix[a] != prefix[b] by {
                assert(prefix[a] == names[a] && prefix[b] == names[b]);
            }
        }
        lemma_bonus_total_counts(first, prefix);
        let before = pioneered_by_any(first, prefix);
        let mine = held_by(first, e);
        assert(!prefix.contains(e)) by {
            if prefix.contains(e) {
                let w = choose|w: int| 0 <= w < prefix.len() && prefix[w] == e;
                assert(names[w] == names[names.len() - 1]);
            }
        }
        assert(before.disjoint(mine));
        assert forall|c: Coord| #[trigger] pioneered_by_any(first, names).contains(c) == (
        before + mine).contains(c) by {
            if first.contains_key(c) && names.contains(first[c]) && first[c] != e {
                let w = choose|w: int| 0 <= w < names.len() && names[w] == first[c];
                assert(prefix[w] == first[c]);
            }
            if first.contains_key(c) && prefix.contains(first[c]) {
                let w = choose|w: int| 0 <= w < prefix.len() && prefix[w] == first[c];
                assert(names[w] == first[c]);
            }
            if first.contains_key(c) && first[c] == e {
                assert(names[names.len() - 1] == e);
            }
        }
        assert(pioneered_by_any(first, names) =~= before + mine);
        lemma_coord_set_size(before);
        lemma_coord_set_size(mine);
        vstd::set_lib::lemma_set_disjoint_lens(before, mine);
    }
}

/// Every pioneered coordinate counts toward the bonus of its discoverer and of
/// nobody else, so the bonuses of all explorers (listed once each) add up to the
/// number of pioneered regions, which is at most nine.
pub proof fn lemma_bonuses_sum_to_total(
    first: Map<Coord, Seq<char>>,
    names: Seq<Seq<char>>,
    c: Coord,
    e1: Seq<char>,
    e2: Seq<char>,
)
    requires
        names.no_duplicates(),
        forall|d: Coord| #[trigger] first.contains_key(d) ==> names.contains(first[d]),
    ensures
        first.contains_key(c) ==> held_by(first, first[c]).contains(c),
        e1 != e2 ==> held_by(first, e1).disjoint(held_by(first, e2)),
        bonus_total(first, names) == first.len(),
        first.len() <= 9,
{
    lemma_bonus_total_counts(first, names);
    assert(pioneered_by_any(first, names) =~= first.dom());
    lemma_coord_set_size(first.dom());
}

} // verus!
