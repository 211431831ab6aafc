//! An append-only log of discoveries.

use vstd::prelude::*;

use crate::grid::{Coord, Ternary};

verus! {

/// A record of a single discovery.
#[derive(Debug, Clone)]
pub struct Discovery {
    pub coord: Coord,
    pub value: Ternary,
    pub discoverer: String,
    pub timestamp: u64,
}

/// The discovery holds the given coordinate, value, discoverer's name and time.
pub open spec fn is_discovery(
    d: Discovery,
    coord: Coord,
    value: Ternary,
    discoverer: Seq<char>,
    timestamp: u64,
) -> bool {
    &&& d.coord == coord
    &&& d.value == value
    &&& d.discoverer@ == discoverer
    &&& d.timestamp == timestamp
}

/// The log after recording a discovery: the earlier entries unchanged, the new
/// one after them.
pub open spec fn appended(
    before: Seq<Discovery>,
    after: Seq<Discovery>,
    coord: Coord,
    value: Ternary,
    discoverer: Seq<char>,
    timestamp: u64,
) -> bool {
    &&& after.len() == before.len() + 1
    &&& after.take(before.len() as int) == before
    &&& is_discovery(after.last(), coord, value, discoverer, timestamp)
}

/// Whether a discovery was made by the explorer named `name`.
pub open spec fn made_by(name: Seq<char>) -> spec_fn(Discovery) -> bool {
    |d: Discovery| d.discoverer@ == name
}

/// The entries made by the explorer named `name`, in the order they were made.
pub open spec fn entries_by(entries: Seq<Discovery>, name: Seq<char>) -> Seq<Discovery> {
    entries.filter(made_by(name))
}

/// Some entry is at coordinate `coord`.
pub open spec fn discovered_at(entries: Seq<Discovery>, coord: Coord) -> bool {
    exists|i: int| 0 <= i < entries.len() && #[trigger] entries[i].coord == coord
}

/// Log of all discoveries made during exploration.
#[derive(Debug, Clone)]
pub struct DiscoveryLog {
    entries: Vec<Discovery>,
}

impl View for DiscoveryLog {
    type V = Seq<Discovery>;

    /// The entries, oldest first.
    closed spec fn view(&self) -> Seq<Discovery> {
        self.entries@
    }
}

impl DiscoveryLog {
    pub fn new() -> (r: Self)
        ensures
            r@ == Seq::<Discovery>::empty(),
    {
        Self { entries: Vec::new() }
    }

    pub fn record(&mut self, coord: Coord, value: Ternary, discoverer: &str, timestamp: u64)
        ensures
            appended(old(self)@, final(self)@, coord, value, discoverer@, timestamp),
    {
        self.entries.push(
            Discovery { coord, value, discoverer: discoverer.to_owned(), timestamp },
        );
        assert(self@.take(old(self)@.len() as int) =~= old(self)@);
    }

    pub fn entries(&self) -> (r: &[Discovery])
        ensures
            r@ == self@,
    {
        self.entries.as_slice()
    }

    pub fn count(&self) -> (r: usize)
        ensures
            r == self@.len(),
    {
        self.entries.len()
    }

    /// Discoveries by a specific explorer.
    pub fn by_explorer(&self, name: &str) -> (r: Vec<&Discovery>)
        ensures
            r@.len() == entries_by(self@, name@).len(),
            forall|i: int| 0 <= i < r@.len() ==> *#[trigger] r@[i] == entries_by(self@, name@)[i],
            forall|i: int| 0 <= i < r@.len() ==> (#[trigger] r@[i]).discoverer@ == name@,
            forall|j: int|
                0 <= j < self@.len() && (#[trigger] self@[j]).discoverer@ == name@ ==> exists|i: int|
                    0 <= i < r@.len() && *r@[i] == self@[j],
    {
        let key = name.to_owned();
        let ghost pred = made_by(name@);
        let mut result: Vec<&Discovery> = Vec::new();
        let mut i: usize = 0;
        while i < self.entries.len()
            invariant
                i <= self.entries.len(),
                key@ == name@,
                pred == made_by(name@),
                result@.len() == self.entries@.take(i as int).filter(pred).len(),
                forall|j: int|
                    0 <= j < result@.len() ==> *#[trigger] result@[j] == self.entries@.take(
                        i as int,
                    ).filter(pred)[j],
            decreases self.entries.len() - i,
        {
            let d = &self.entries[i];
            proof {
                assert(self.entries@.take(i + 1) =~= self.entries@.take(i as int).push(*d));
                self.entries@.take(i as int).lemma_filter_push(*d, pred);
            }
            if d.discoverer == key {
                result.push(d);
            }
            i = i + 1;
        }
        assert(self.entries@.take(self.entries.len() as int) =~= self.entries@);
        proof {
            lemma_entries_by_exact(self@, name@);
            assert forall|j: int|
                0 <= j < self@.len() && (#[trigger] self@[j]).discoverer@ == name@ implies exists|i: int|
                    0 <= i < result@.len() && *result@[i] == self@[j] by {
                assert(entries_by(self@, name@).contains(self@[j]));
                let i = choose|i: int|
                    0 <= i < entries_by(self@, name@).len() && entries_by(self@, name@)[i] == self@[j];
                assert(*result@[i] == self@[j]);
            }
        }
        result
    }

    /// Check if a coordinate has been discovered.
    pub fn has_discovered(&self, coord: Coord) -> (r: bool)
        ensures
            r == discovered_at(self@, coord),
    {
        let mut i: usize = 0;
        while i < self.entries.len()
            invariant
                i <= self.entries.len(),
                forall|j: int| 0 <= j < i ==> #[trigger] self.entries@[j].coord != coord,
            decreases self.entries.len() - i,
        {
            if self.entries[i].coord == coord {
                return true;
            }
            i = i + 1;
        }
        false
    }

    /// Most recent discovery.
    pub fn latest(&self) -> (r: Option<&Discovery>)
        ensures
            r is None <==> self@.len() == 0,
            r matches Some(d) ==> *d == self@.last(),
    {
        let n: usize = self.entries.len();
        if n == 0 {
            None
        } else {
            Some(&self.entries[n - 1])
        }
    }
}

impl Default for DiscoveryLog {
    fn default() -> (r: Self)
        ensures
            r@ == Seq::<Discovery>::empty(),
    {
        Self::new()
    }
}

/// The entries by `name` are exactly the log's entries whose discoverer is named
/// `name`, no other entry and no other name, in log order, and they are as many as
/// such entries in the log.
pub proof fn lemma_entries_by_exact(entries: Seq<Discovery>, name: Seq<char>)
    ensures
        forall|i: int|
            0 <= i < entries_by(entries, name).len() ==> (#[trigger] entries_by(
                entries,
                name,
            )[i]).discoverer@ == name,
        forall|i: int|
            0 <= i < entries_by(entries, name).len() ==> entries.contains(
                #[trigger] entries_by(entries, name)[i],
            ),
        forall|j: int|
            0 <= j < entries.len() && (#[trigger] entries[j]).discoverer@ == name ==> entries_by(
                entries,
                name,
            ).contains(entries[j]),
        forall|d: Discovery| #[trigger] made_by(name)(d) <==> d.discoverer@ == name,
        entries_by(entries, name).len() <= entries.len(),
        forall|other: Seq<char>|
            other != name ==> #[trigger] entries_by(entries, other).len() + entries_by(
                entries,
                name,
            ).len() <= entries.len(),
    decreases entries.len(),
{
    broadcast use vstd::seq_lib::group_filter_ensures;

    entries.lemma_filter_len(made_by(name));
    assert forall|j: int|
        0 <= j < entries.len() && (#[trigger] entries[j]).discoverer@ == name implies entries_by(
            entries,
            name,
        ).contains(entries[j]) by {
        entries.lemma_filter_contains(made_by(name), j);
    }
    if entries.len() > 0 {
        let prefix = entries.drop_last();
        lemma_entries_by_exact(prefix, name);
        assert(entries =~= prefix.push(entries.last()));
        prefix.lemma_filter_push(entries.last(), made_by(name));
        assert forall|other: Seq<char>| other != name implies #[trigger] entries_by(
            entries,
            other,
        ).len() + entries_by(entries, name).len() <= entries.len() by {
            prefix.lemma_filter_push(entries.last(), made_by(other));
            assert(entries_by(prefix, other).len() + entries_by(prefix, name).len() <= prefix.len());
        }
    }
}

/// Recording keeps every earlier entry, makes the log one longer, makes the new
/// entry the latest, and makes its coordinate discovered.
pub proof fn lemma_record_appends(
    before: Seq<Discovery>,
    after: Seq<Discovery>,
    coord: Coord,
    value: Ternary,
    discoverer: Seq<char>,
    timestamp: u64,
)
    requires
        appended(before, after, coord, value, discoverer, timestamp),
    ensures
        forall|i: int| 0 <= i < before.len() ==> #[trigger] after[i] == before[i],
        after.last().coord == coord,
        discovered_at(after, coord),
        forall|c: Coord| discovered_at(before, c) ==> discovered_at(after, c),
        entries_by(after, discoverer).len() == entries_by(before, discoverer).len() + 1,
{
    assert forall|i: int| 0 <= i < before.len() implies #[trigger] after[i] == before[i] by {
        assert(after.take(before.len() as int)[i] == after[i]);
    }
    assert(after[after.len() - 1].coord == coord);
    assert forall|c: Coord| discovered_at(before, c) implies discovered_at(after, c) by {
        let i = choose|i: int| 0 <= i < before.len() && #[trigger] before[i].coord == c;
        assert(after[i] == before[i]);
    }
    assert(after =~= before.push(after.last()));
    before.lemma_filter_push(after.last(), made_by(discoverer));
}

} // verus!
