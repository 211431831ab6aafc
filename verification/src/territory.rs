//! Claimed vs unclaimed territory: who owns which coordinate.

use vstd::prelude::*;

use crate::grid::{
    all_coords, cell_index, coord_at, count_named, count_occupied, held_by,
    lemma_cell_index_bijective, lemma_coord_set_size, lemma_count_complement, lemma_listing, name_at,
    names_at, Coord,
};

verus! {

/// A claim on `coord` by `owner` succeeds unless someone else holds it.
pub open spec fn claim_allowed(claims: Map<Coord, Seq<char>>, coord: Coord, owner: Seq<char>) -> bool {
    !(claims.contains_key(coord) && claims[coord] != owner)
}

/// A release of `coord` by `owner` succeeds when `owner` holds it.
pub open spec fn release_allowed(
    claims: Map<Coord, Seq<char>>,
    coord: Coord,
    owner: Seq<char>,
) -> bool {
    claims.contains_key(coord) && claims[coord] == owner
}

/// Whether nobody claims a coordinate.
pub open spec fn is_unclaimed(claims: Map<Coord, Seq<char>>) -> spec_fn(Coord) -> bool {
    |c: Coord| !claims.contains_key(c)
}

/// Claimed vs unclaimed territory map.
#[derive(Debug, Clone)]
pub struct TerritoryMap {
    claims: [Option<String>; 9],
}

impl View for TerritoryMap {
    type V = Map<Coord, Seq<char>>;

    /// The owner of each claimed coordinate.
    closed spec fn view(&self) -> Map<Coord, Seq<char>> {
        names_at(self.claims@)
    }
}

impl TerritoryMap {
    pub fn new() -> (r: Self)
        ensures
            r@ == Map::<Coord, Seq<char>>::empty(),
    {
        let r = Self { claims: [None, None, None, None, None, None, None, None, None] };
        assert(r@ =~= Map::<Coord, Seq<char>>::empty());
        r
    }

    /// Claim a territory. Returns true if successful (unclaimed or own).
    pub fn claim(&mut self, coord: Coord, owner: &str) -> (r: bool)
        ensures
            r == claim_allowed(old(self)@, coord, owner@),
            !old(self)@.contains_key(coord) ==> r,
            r <==> (!old(self)@.contains_key(coord) || old(self)@[coord] == owner@),
            r ==> final(self)@[coord] == owner@,
            final(self)@ == if r {
                old(self)@.insert(coord, owner@)
            } else {
                old(self)@
            },
    {
        let i: usize = coord.index();
        let name = owner.to_owned();
        let allowed = match &self.claims[i] {
            Some(existing) => *existing == name,
            None => true,
        };
        if allowed {
            self.claims[i] = Some(name);
            proof {
                assert forall|c: Coord| cell_index(c) != i implies #[trigger] self.claims@[cell_index(c)]
                    == old(self).claims@[cell_index(c)] by {}
                assert forall|c: Coord| cell_index(c) == i implies c == coord by {
                    lemma_cell_index_bijective(c, 0);
                    lemma_cell_index_bijective(coord, 0);
                }
                assert(self@ =~= old(self)@.insert(coord, owner@));
            }
        }
        allowed
    }

    /// Release a claim.
    pub fn release(&mut self, coord: Coord, owner: &str) -> (r: bool)
        ensures
            r == release_allowed(old(self)@, coord, owner@),
            !old(self)@.contains_key(coord) ==> !r,
            r <==> (old(self)@.contains_key(coord) && old(self)@[coord] == owner@),
            r ==> !final(self)@.contains_key(coord),
            final(self)@ == if r {
                old(self)@.remove(coord)
            } else {
                old(self)@
            },
    {
        let i: usize = coord.index();
        let name = owner.to_owned();
        let held = match &self.claims[i] {
            Some(existing) => *existing == name,
            None => false,
        };
        if held {
            self.claims[i] = None;
            proof {
                assert forall|c: Coord| cell_index(c) != i implies #[trigger] self.claims@[cell_index(c)]
                    == old(self).claims@[cell_index(c)] by {}
                assert forall|c: Coord| cell_index(c) == i implies c == coord by {
                    lemma_cell_index_bijective(c, 0);
                    lemma_cell_index_bijective(coord, 0);
                }
                assert(self@ =~= old(self)@.remove(coord));
            }
        }
        held
    }

    /// Who owns this territory?
    pub fn owner(&self, coord: Coord) -> (r: Option<&str>)
        ensures
            r is Some <==> self@.contains_key(coord),
            r matches Some(s) ==> s@ == self@[coord],
    {
        name_at(&self.claims, coord)
    }

    /// How many territories does an owner have?
    pub fn owned_by(&self, owner: &str) -> (r: usize)
        ensures
            r == held_by(self@, owner@).len(),
    {
        count_named(&self.claims, &owner.to_owned())
    }

    /// Unclaimed coordinates.
    pub fn unclaimed(&self) -> (r: Vec<Coord>)
        ensures
            r@ == all_coords().filter(is_unclaimed(self@)),
    {
        let ghost pred = is_unclaimed(self@);
        let all = Coord::all();
        let mut result: Vec<Coord> = Vec::new();
        let mut i: usize = 0;
        while i < 9
            invariant
                i <= 9,
                all@ == all_coords(),
                pred == is_unclaimed(self@),
                result@ == all_coords().take(i as int).filter(pred),
            decreases 9 - i,
        {
            let c = all[i];
            proof {
                lemma_cell_index_bijective(c, i as int);
                assert(all_coords().take(i + 1) =~= all_coords().take(i as int).push(c));
                all_coords().take(i as int).lemma_filter_push(c, pred);
            }
            if self.claims[i].is_none() {
                result.push(c);
            }
            i = i + 1;
        }
        assert(all_coords().take(9) =~= all_coords());
        result
    }

    /// Total claimed territories.
    pub fn total_claimed(&self) -> (r: usize)
        ensures
            r == self@.len(),
    {
        count_occupied(&self.claims)
    }
}

impl Default for TerritoryMap {
    fn default() -> (r: Self)
        ensures
            r@ == Map::<Coord, Seq<char>>::empty(),
    {
        Self::new()
    }
}

/// A claim on a coordinate nobody holds always succeeds, whoever makes it and
/// however much the claimant already holds; a claim on one's own coordinate
/// succeeds; a claim on someone else's fails. A release succeeds exactly when the
/// releaser holds the coordinate, so releasing an unclaimed coordinate fails.
pub proof fn lemma_claim_and_release_rules(
    claims: Map<Coord, Seq<char>>,
    coord: Coord,
    owner: Seq<char>,
)
    ensures
        !claims.contains_key(coord) ==> claim_allowed(claims, coord, owner),
        claims.contains_key(coord) && claims[coord] == owner ==> claim_allowed(claims, coord, owner),
        claims.contains_key(coord) && claims[coord] != owner ==> !claim_allowed(claims, coord, owner),
        !claims.contains_key(coord) ==> !release_allowed(claims, coord, owner),
        claims.contains_key(coord) && claims[coord] == owner ==> release_allowed(claims, coord, owner),
        claims.contains_key(coord) && claims[coord] != owner ==> !release_allowed(claims, coord, owner),
        !release_allowed(claims.remove(coord), coord, owner),
{
}

/// A successful claim makes the claimant the owner. While it owns the
/// coordinate, another claimant is refused, the owner may claim it again, only the
/// owner may release it, and after the release the coordinate is unclaimed.
pub proof fn lemma_claim_is_exclusive(
    claims: Map<Coord, Seq<char>>,
    coord: Coord,
    owner: Seq<char>,
    other: Seq<char>,
)
    requires
        claim_allowed(claims, coord, owner),
    ensures
        claims.insert(coord, owner)[coord] == owner,
        claim_allowed(claims.insert(coord, owner), coord, other) <==> other == owner,
        release_allowed(claims.insert(coord, owner), coord, other) <==> other == owner,
        !claims.insert(coord, owner).remove(coord).contains_key(coord),
{
}

/// Claimed and unclaimed coordinates together are all nine.
pub proof fn lemma_claimed_and_unclaimed(claims: Map<Coord, Seq<char>>)
    ensures
        claims.len() + all_coords().filter(is_unclaimed(claims)).len() == 9,
{
    let u = Set::new(is_unclaimed(claims));
    lemma_listing(is_unclaimed(claims));
    lemma_coord_set_size(claims.dom());
    lemma_coord_set_size(u);
    lemma_count_complement(
        |i: int| claims.dom().contains(coord_at(i)),
        |i: int| u.contains(coord_at(i)),
        9,
    );
}

} // verus!
