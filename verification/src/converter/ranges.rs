//! The map from the start address of a range to its source location, kept as
//! a vector in ascending order of the addresses.

use crate::format::raw;
use vstd::prelude::*;

verus! {

/// The relative address at which a range starts, and its source location.
pub type Entry = (u32, raw::SourceLocation);

/// Each entry starts behind the one before it.
pub open spec fn ascending(entries: Seq<Entry>) -> bool {
    forall|i: int, j: int| 0 <= i < j < entries.len() ==> entries[i].0 < entries[j].0
}

/// Whether a range starts at `addr`.
pub open spec fn has_key(entries: Seq<Entry>, addr: u32) -> bool {
    exists|i: int| 0 <= i < entries.len() && (#[trigger] entries[i]).0 == addr
}

/// The number of ranges that start before `addr`.
pub open spec fn rank(entries: Seq<Entry>, addr: u32) -> int
    decreases entries.len(),
{
    if entries.len() == 0 {
        0
    } else if entries.last().0 < addr {
        rank(entries.drop_last(), addr) + 1
    } else {
        rank(entries.drop_last(), addr)
    }
}

/// The entries after a range at `addr` was asked for: the first range at an
/// address stays, so nothing changes where one starts at `addr` already.
pub open spec fn inserted(entries: Seq<Entry>, addr: u32, location: raw::SourceLocation) -> Seq<Entry> {
    if has_key(entries, addr) {
        entries
    } else {
        entries.insert(rank(entries, addr), (addr, location))
    }
}

/// The entries after a range at `addr` was set: where one starts at `addr`
/// already, it gets the new source location.
pub open spec fn replaced(entries: Seq<Entry>, addr: u32, location: raw::SourceLocation) -> Seq<Entry> {
    if has_key(entries, addr) {
        entries.update(rank(entries, addr), (addr, location))
    } else {
        entries.insert(rank(entries, addr), (addr, location))
    }
}

/// The index behind the last of the ranges that start at `begin` or later
/// and before `end`; the first of them has the index `rank(entries, begin)`.
/// A range that starts exactly at `end` is not among them.
pub open spec fn select_end(entries: Seq<Entry>, begin: u32, end: u32) -> int {
    if rank(entries, end) < rank(entries, begin) {
        rank(entries, begin)
    } else {
        rank(entries, end)
    }
}

/// The addresses at which the ranges start.
pub open spec fn keys(entries: Seq<Entry>) -> Seq<u32> {
    entries.map_values(|entry: Entry| entry.0)
}

/// The source locations of the ranges.
pub open spec fn values(entries: Seq<Entry>) -> Seq<raw::SourceLocation> {
    entries.map_values(|entry: Entry| entry.1)
}

/// In ascending entries, the place where the addresses stop being smaller
/// than `addr` is the rank of `addr`.
pub proof fn lemma_rank(entries: Seq<Entry>, addr: u32, p: int)
    requires
        0 <= p <= entries.len(),
        forall|i: int| 0 <= i < p ==> (#[trigger] entries[i]).0 < addr,
        forall|i: int| p <= i < entries.len() ==> (#[trigger] entries[i]).0 >= addr,
    ensures
        rank(entries, addr) == p,
    decreases entries.len(),
{
    if entries.len() > 0 {
        let rest = entries.drop_last();
        if p == entries.len() {
            assert forall|i: int| 0 <= i < p - 1 implies (#[trigger] rest[i]).0 < addr by {
                assert(rest[i] == entries[i]);
            }
            assert(entries.last() == entries[p - 1]);
            lemma_rank(rest, addr, p - 1);
        } else {
            assert forall|i: int| 0 <= i < p implies (#[trigger] rest[i]).0 < addr by {
                assert(rest[i] == entries[i]);
            }
            assert forall|i: int| p <= i < rest.len() implies (#[trigger] rest[i]).0 >= addr by {
                assert(rest[i] == entries[i]);
            }
            assert(entries.last() == entries[entries.len() - 1]);
            lemma_rank(rest, addr, p);
        }
    }
}

/// The rank of an address lies within the entries.
pub proof fn lemma_rank_bounds(entries: Seq<Entry>, addr: u32)
    ensures
        0 <= rank(entries, addr) <= entries.len(),
    decreases entries.len(),
{
    if entries.len() > 0 {
        lemma_rank_bounds(entries.drop_last(), addr);
    }
}

/// In ascending entries, those before the rank of `addr` start before
/// `addr`, and the others do not.
pub proof fn lemma_rank_splits(entries: Seq<Entry>, addr: u32)
    requires
        ascending(entries),
    ensures
        0 <= rank(entries, addr) <= entries.len(),
        forall|i: int| 0 <= i < rank(entries, addr) ==> (#[trigger] entries[i]).0 < addr,
        forall|i: int| rank(entries, addr) <= i < entries.len() ==> (#[trigger] entries[i]).0 >= addr,
    decreases entries.len(),
{
    if entries.len() > 0 {
        let rest = entries.drop_last();
        assert(ascending(rest)) by {
            assert forall|i: int, j: int| 0 <= i < j < rest.len() implies rest[i].0 < rest[j].0 by {
                assert(rest[i] == entries[i] && rest[j] == entries[j]);
            }
        }
        lemma_rank_splits(rest, addr);
        let last = entries.len() - 1;
        assert forall|i: int| 0 <= i < rank(entries, addr) implies (#[trigger] entries[i]).0
            < addr by {
            if i < last {
                if i >= rank(rest, addr) {
                    // then the last entry starts before `addr`, and so does this one
                    assert(entries[i].0 < entries[last].0);
                } else {
                    assert(rest[i] == entries[i]);
                }
            }
        }
        assert forall|i: int| rank(entries, addr) <= i < entries.len() implies (
        #[trigger] entries[i]).0 >= addr by {
            if i < last {
                assert(rest[i] == entries[i]);
                if entries[last].0 < addr {
                    assert(rank(rest, addr) <= last);
                }
            }
        }
    }
}

/// Asking for a range keeps the entries ascending, adds the address to those
/// at which a range starts, and leaves every range that was there as it was.
pub proof fn lemma_inserted(entries: Seq<Entry>, addr: u32, location: raw::SourceLocation)
    requires
        ascending(entries),
    ensures
        ascending(inserted(entries, addr, location)),
        forall|a: u32| has_key(inserted(entries, addr, location), a) <==> (a == addr || has_key(entries, a)),
        forall|i: int| 0 <= i < entries.len() ==> inserted(entries, addr, location).contains(#[trigger] entries[i]),
        !has_key(entries, addr) ==> inserted(entries, addr, location).contains((addr, location)),
        forall|e: Entry| inserted(entries, addr, location).contains(e) ==> (entries.contains(e) || e == (addr, location)),
{
    let after = inserted(entries, addr, location);
    lemma_rank_splits(entries, addr);
    let p = rank(entries, addr);
    if has_key(entries, addr) {
        assert forall|i: int| 0 <= i < entries.len() implies after.contains(#[trigger] entries[i]) by {
            assert(after[i] == entries[i]);
        }
    } else {
        assert forall|i: int| p <= i < entries.len() implies (#[trigger] entries[i]).0 > addr by {
            if entries[i].0 == addr {
                assert(has_key(entries, addr));
            }
        }
        assert forall|i: int, j: int| 0 <= i < j < after.len() implies after[i].0 < after[j].0 by {
            if i < p {
                assert(after[i] == entries[i]);
            } else if i > p {
                assert(after[i] == entries[i - 1]);
            }
            if j < p {
                assert(after[j] == entries[j]);
            } else if j > p {
                assert(after[j] == entries[j - 1]);
            }
        }
        assert(after[p] == (addr, location));
        assert forall|i: int| 0 <= i < entries.len() implies after.contains(#[trigger] entries[i]) by {
            if i < p {
                assert(after[i] == entries[i]);
            } else {
                assert(after[i + 1] == entries[i]);
            }
        }
        assert forall|a: u32| has_key(after, a) <==> (a == addr || has_key(entries, a)) by {
            if has_key(after, a) {
                let i = choose|i: int| 0 <= i < after.len() && (#[trigger] after[i]).0 == a;
                if i < p {
                    assert(entries[i].0 == a);
                } else if i > p {
                    assert(entries[i - 1].0 == a);
                }
            }
            if has_key(entries, a) {
                let i = choose|i: int| 0 <= i < entries.len() && (#[trigger] entries[i]).0 == a;
                if i < p {
                    assert(after[i].0 == a);
                } else {
                    assert(after[i + 1].0 == a);
                }
            }
            if a == addr {
                assert(after[p].0 == a);
            }
        }
        assert forall|e: Entry| after.contains(e) implies (entries.contains(e) || e == (
            addr,
            location,
        )) by {
            let i = choose|i: int| 0 <= i < after.len() && after[i] == e;
            if i < p {
                assert(entries[i] == e);
            } else if i > p {
                assert(entries[i - 1] == e);
            }
        }
    }
}

/// The ranges of a converter or of one compilation unit.
pub struct RangeMap {
    entries: Vec<Entry>,
}

impl View for RangeMap {
    type V = Seq<Entry>;

    closed spec fn view(&self) -> Seq<Entry> {
        self.entries@
    }
}

impl RangeMap {
    /// What holds of every map that the functions below hand out: the
    /// entries are in ascending order.
    pub closed spec fn wf(&self) -> bool {
        ascending(self@)
    }

    /// The entries are in ascending order.
    pub proof fn lemma_wf(&self)
        requires
            self.wf(),
        ensures
            ascending(self@),
    {
    }

    /// A map without ranges.
    pub fn new() -> (map: Self)
        ensures
            map.wf(),
            map@ == Seq::<Entry>::empty(),
    {
        RangeMap { entries: Vec::new() }
    }

    /// The number of ranges.
    pub fn len(&self) -> (n: usize)
        ensures
            n == self@.len(),
    {
        self.entries.len()
    }

    /// The entry with index `idx`.
    pub fn get(&self, idx: usize) -> (entry: Entry)
        requires
            idx < self@.len(),
        ensures
            entry == self@[idx as int],
    {
        self.entries[idx]
    }

    /// The number of ranges that start before `addr`, which is the index of
    /// the first range that does not.
    pub fn lower_bound(&self, addr: u32) -> (p: usize)
        requires
            self.wf(),
        ensures
            p == rank(self@, addr),
            p <= self@.len(),
            forall|i: int| 0 <= i < p ==> (#[trigger] self@[i]).0 < addr,
            forall|i: int| p <= i < self@.len() ==> (#[trigger] self@[i]).0 >= addr,
    {
        let mut lo: usize = 0;
        let mut hi: usize = self.entries.len();
        while lo < hi
            invariant
                lo <= hi <= self@.len(),
                ascending(self@),
                forall|i: int| 0 <= i < lo ==> (#[trigger] self@[i]).0 < addr,
                forall|i: int| hi <= i < self@.len() ==> (#[trigger] self@[i]).0 >= addr,
            decreases hi - lo,
        {
            let mid: usize = lo + (hi - lo) / 2;
            if self.entries[mid].0 < addr {
                assert forall|i: int| 0 <= i < mid + 1 implies (#[trigger] self@[i]).0 < addr by {
                    if i < mid {
                        assert(self@[i].0 < self@[mid as int].0);
                    }
                }
                lo = mid + 1;
            } else {
                assert forall|i: int| mid <= i < self@.len() implies (#[trigger] self@[i]).0
                    >= addr by {
                    if i > mid {
                        assert(self@[mid as int].0 < self@[i].0);
                    }
                }
                hi = mid;
            }
        }
        proof {
            lemma_rank(self@, addr, lo as int);
        }
        lo
    }

    /// The index of the range that `addr` lies in: the last one that starts
    /// at or before `addr`, and none where `addr` lies before all ranges.
    pub fn floor(&self, addr: u32) -> (found: Option<usize>)
        requires
            self.wf(),
        ensures
            match found {
                Some(i) => {
                    &&& i < self@.len()
                    &&& self@[i as int].0 <= addr
                    &&& forall|j: int| i < j < self@.len() ==> addr < (#[trigger] self@[j]).0
                },
                None => forall|j: int| 0 <= j < self@.len() ==> addr < (#[trigger] self@[j]).0,
            },
    {
        let p = self.lower_bound(addr);
        if p < self.entries.len() && self.entries[p].0 == addr {
            assert forall|j: int| p < j < self@.len() implies addr < (#[trigger] self@[j]).0 by {
                assert(self@[p as int].0 < self@[j].0);
            }
            Some(p)
        } else if p == 0 {
            None
        } else {
            Some(p - 1)
        }
    }

    /// Whether a range starts at `addr`.
    pub fn contains_key(&self, addr: u32) -> (found: bool)
        requires
            self.wf(),
        ensures
            found == has_key(self@, addr),
    {
        let p = self.lower_bound(addr);
        p < self.entries.len() && self.entries[p].0 == addr
    }

    /// Adds a range that starts at `addr`, unless one starts there already:
    /// the first range at an address stays. Returns whether the range was
    /// added.
    pub fn insert(&mut self, addr: u32, location: raw::SourceLocation) -> (added: bool)
        requires
            old(self).wf(),
        ensures
            final(self).wf(),
            final(self)@ == inserted(old(self)@, addr, location),
            added == !has_key(old(self)@, addr),
    {
        let p = self.lower_bound(addr);
        proof {
            lemma_inserted(self@, addr, location);
        }
        if p < self.entries.len() && self.entries[p].0 == addr {
            false
        } else {
            self.entries.insert(p, (addr, location));
            true
        }
    }

    /// Sets the range that starts at `addr`: where one starts there already,
    /// it gets the new source location.
    pub fn replace(&mut self, addr: u32, location: raw::SourceLocation)
        requires
            old(self).wf(),
        ensures
            final(self).wf(),
            final(self)@ == replaced(old(self)@, addr, location),
    {
        let p = self.lower_bound(addr);
        if p < self.entries.len() && self.entries[p].0 == addr {
            self.set_value(p, location);
        } else {
            proof {
                lemma_inserted(self@, addr, location);
            }
            self.entries.insert(p, (addr, location));
        }
    }

    /// The indices of the ranges that start at `begin` or later and before
    /// `end`: from the first index up to, but without, the second.
    pub fn sub_ranges(&self, begin: u32, end: u32) -> (r: (usize, usize))
        requires
            self.wf(),
        ensures
            r.0 == rank(self@, begin),
            r.1 == select_end(self@, begin, end),
            r.0 <= r.1 <= self@.len(),
            forall|i: int| r.0 <= i < r.1 ==> begin <= (#[trigger] self@[i]).0 < end,
    {
        let from = self.lower_bound(begin);
        let to = self.lower_bound(end);
        if to < from {
            (from, from)
        } else {
            (from, to)
        }
    }

    /// Gives the range with index `idx` another source location.
    pub fn set_value(&mut self, idx: usize, location: raw::SourceLocation)
        requires
            old(self).wf(),
            idx < old(self)@.len(),
        ensures
            final(self).wf(),
            final(self)@ == old(self)@.update(idx as int, (old(self)@[idx as int].0, location)),
    {
        let addr: u32 = self.entries[idx].0;
        self.entries[idx] = (addr, location);
        proof {
            assert forall|i: int, j: int| 0 <= i < j < self@.len() implies self@[i].0 < self@[j].0 by {
                assert(self@[i].0 == old(self)@[i].0);
                assert(self@[j].0 == old(self)@[j].0);
            }
        }
    }
}

} // verus!
