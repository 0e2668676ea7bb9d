//! Spatial index: a map from real grid cell to occupant identity, one per
//! entity category.  Backed by a vector of entries with pairwise-distinct
//! keys; viewed in specifications as a `Map<RealCoords, u64>`.

use vstd::prelude::*;
use crate::measures::RealCoords;

verus! {

/// The entries of a coordinate map, folded into a mathematical map.
pub open spec fn entries_to_map(s: Seq<(RealCoords, u64)>) -> Map<RealCoords, u64>
    decreases s.len(),
{
    if s.len() == 0 {
        Map::empty()
    } else {
        entries_to_map(s.drop_last()).insert(s.last().0, s.last().1)
    }
}

/// Pairwise-distinct keys.
pub open spec fn entries_wf(s: Seq<(RealCoords, u64)>) -> bool {
    forall|i: int, j: int|
        0 <= i < j < s.len() ==> (#[trigger] s[i]).0 != (#[trigger] s[j]).0
}

proof fn lemma_entries_contains(s: Seq<(RealCoords, u64)>, c: RealCoords)
    ensures
        entries_to_map(s).contains_key(c) <==> exists|i: int|
            0 <= i < s.len() && (#[trigger] s[i]).0 == c,
    decreases s.len(),
{
    if s.len() > 0 {
        lemma_entries_contains(s.drop_last(), c);
        if s.last().0 == c {
            assert((s[s.len() - 1]).0 == c);
        }
        if entries_to_map(s).contains_key(c) && s.last().0 != c {
            let i = choose|i: int| 0 <= i < s.drop_last().len() && (#[trigger] s.drop_last()[i]).0 == c;
            assert((s[i]).0 == c);
        }
        if exists|i: int| 0 <= i < s.len() && (#[trigger] s[i]).0 == c {
            let i = choose|i: int| 0 <= i < s.len() && (#[trigger] s[i]).0 == c;
            if i < s.len() - 1 {
                assert((s.drop_last()[i]).0 == c);
            }
        }
    }
}

proof fn lemma_entries_index(s: Seq<(RealCoords, u64)>, i: int)
    requires
        entries_wf(s),
        0 <= i < s.len(),
    ensures
        entries_to_map(s).contains_key(s[i].0),
        entries_to_map(s)[s[i].0] == s[i].1,
    decreases s.len(),
{
    if i == s.len() - 1 {
    } else {
        assert(entries_wf(s.drop_last()));
        assert(s.drop_last()[i] == s[i]);
        lemma_entries_index(s.drop_last(), i);
        assert(s[i].0 != s.last().0);
    }
}

proof fn lemma_entries_dom_len(s: Seq<(RealCoords, u64)>)
    requires
        entries_wf(s),
    ensures
        entries_to_map(s).dom().finite(),
        entries_to_map(s).dom().len() == s.len(),
    decreases s.len(),
{
    if s.len() > 0 {
        assert(entries_wf(s.drop_last()));
        lemma_entries_dom_len(s.drop_last());
        lemma_entries_contains(s.drop_last(), s.last().0);
        if entries_to_map(s.drop_last()).contains_key(s.last().0) {
            let i = choose|i: int|
                0 <= i < s.drop_last().len() && (#[trigger] s.drop_last()[i]).0 == s.last().0;
            assert((s[i]).0 == s.last().0);
            assert(false);
        }
    }
}

proof fn lemma_entries_remove(s: Seq<(RealCoords, u64)>, i: int)
    requires
        entries_wf(s),
        0 <= i < s.len(),
    ensures
        entries_wf(s.remove(i)),
        entries_to_map(s.remove(i)) == entries_to_map(s).remove(s[i].0),
    decreases s.len(),
{
    let s2 = s.remove(i);
    assert forall|p: int, q: int| 0 <= p < q < s2.len() implies (#[trigger] s2[p]).0
        != (#[trigger] s2[q]).0 by {
        let p0 = if p < i { p } else { p + 1 };
        let q0 = if q < i { q } else { q + 1 };
        assert(s2[p] == s[p0]);
        assert(s2[q] == s[q0]);
    }
    let m0 = entries_to_map(s.drop_last());
    if i == s.len() - 1 {
        assert(s2 =~= s.drop_last());
        lemma_entries_contains(s.drop_last(), s.last().0);
        if m0.contains_key(s.last().0) {
            let j = choose|j: int|
                0 <= j < s.drop_last().len() && (#[trigger] s.drop_last()[j]).0 == s.last().0;
            assert((s[j]).0 == s.last().0);
            assert(false);
        }
        assert(m0.insert(s.last().0, s.last().1).remove(s.last().0) =~= m0);
    } else {
        assert(entries_wf(s.drop_last()));
        assert(s.drop_last()[i] == s[i]);
        lemma_entries_remove(s.drop_last(), i);
        assert(s2.drop_last() =~= s.drop_last().remove(i));
        assert(s2.last() == s.last());
        assert(entries_to_map(s2) == m0.remove(s[i].0).insert(s.last().0, s.last().1));
        assert(s[i].0 != s.last().0);
        assert(m0.remove(s[i].0).insert(s.last().0, s.last().1) =~= m0.insert(
            s.last().0,
            s.last().1,
        ).remove(s[i].0));
    }
}

/// A map from grid cell to the identity of the entity occupying it.
#[derive(Debug)]
pub struct CoordMap {
    entries: Vec<(RealCoords, u64)>,
}

impl CoordMap {
    /// The map this index denotes.
    pub closed spec fn view(&self) -> Map<RealCoords, u64> {
        entries_to_map(self.entries@)
    }

    /// Well-formedness: one entry per cell.
    pub closed spec fn wf(&self) -> bool {
        entries_wf(self.entries@)
    }

    /// The map of a well-formed index has a finite domain, as many cells as
    /// entries.
    pub proof fn lemma_dom_finite(&self)
        requires
            self.wf(),
        ensures
            self@.dom().finite(),
    {
        lemma_entries_dom_len(self.entries@);
    }

    /// An empty index.
    pub fn new() -> (r: CoordMap)
        ensures
            r.wf(),
            r@ == Map::<RealCoords, u64>::empty(),
    {
        CoordMap { entries: Vec::new() }
    }

    /// How many cells are occupied.
    pub fn len(&self) -> (r: usize)
        requires
            self.wf(),
        ensures
            r == self@.dom().len(),
    {
        proof {
            lemma_entries_dom_len(self.entries@);
        }
        self.entries.len()
    }

    /// The occupant of cell `c`, if any.
    pub fn get(&self, c: RealCoords) -> (r: Option<u64>)
        requires
            self.wf(),
        ensures
            r is Some <==> self@.contains_key(c),
            r is Some ==> self@[c] == r->Some_0,
    {
        proof {
            lemma_entries_contains(self.entries@, c);
        }
        let n: usize = self.entries.len();
        let mut i: usize = 0;
        while i < n
            invariant
                n == self.entries@.len(),
                0 <= i <= n,
                self.wf(),
                forall|j: int| 0 <= j < i ==> (#[trigger] self.entries@[j]).0 != c,
            decreases n - i,
        {
            if self.entries[i].0 == c {
                proof {
                    lemma_entries_index(self.entries@, i as int);
                }
                return Some(self.entries[i].1);
            }
            i = i + 1;
        }
        proof {
            lemma_entries_contains(self.entries@, c);
        }
        None
    }

    /// Records that `id` occupies the free cell `c`.
    pub fn insert(&mut self, c: RealCoords, id: u64)
        requires
            old(self).wf(),
            !old(self)@.contains_key(c),
        ensures
            final(self).wf(),
            final(self)@ == old(self)@.insert(c, id),
    {
        proof {
            lemma_entries_contains(self.entries@, c);
        }
        self.entries.push((c, id));
        proof {
            let s = self.entries@;
            assert(s.drop_last() =~= old(self).entries@);
            assert forall|i: int, j: int| 0 <= i < j < s.len() implies (#[trigger] s[i]).0
                != (#[trigger] s[j]).0 by {
                if j < s.len() - 1 {
                    assert(s[i] == old(self).entries@[i]);
                    assert(s[j] == old(self).entries@[j]);
                } else {
                    assert(s[i] == old(self).entries@[i]);
                }
            }
        }
    }

    /// The first free cell of a `w` by `h` grid, in row-major order.  One
    /// always exists while fewer cells are occupied than the grid holds.
    pub fn first_free_cell(&self, w: u32, h: u32) -> (r: RealCoords)
        requires
            self.wf(),
            1 <= w,
            1 <= h,
            self@.dom().len() < (w as int) * (h as int),
        ensures
            r.x < w,
            r.y < h,
            !self@.contains_key(r),
    {
        let ghost mut seen: Set<RealCoords> = Set::empty();
        let mut x: u32 = 0;
        while x < w
            invariant
                self.wf(),
                1 <= w,
                1 <= h,
                self@.dom().len() < (w as int) * (h as int),
                0 <= x <= w,
                seen.finite(),
                seen.len() == (x as int) * (h as int),
                forall|c: RealCoords|
                    #[trigger] seen.contains(c) ==> c.x < x && c.y < h && self@.contains_key(c),
            decreases w - x,
        {
            let mut y: u32 = 0;
            while y < h
                invariant
                    self.wf(),
                    1 <= w,
                    1 <= h,
                    0 <= x < w,
                    0 <= y <= h,
                    seen.finite(),
                    seen.len() == (x as int) * (h as int) + y as int,
                    forall|c: RealCoords|
                        #[trigger] seen.contains(c) ==> (c.x < x || (c.x == x && c.y < y)) && c.y
                            < h && self@.contains_key(c),
                decreases h - y,
            {
                let c = RealCoords { x, y };
                if self.get(c).is_none() {
                    return c;
                }
                proof {
                    assert(!seen.contains(c));
                    seen = seen.insert(c);
                }
                y = y + 1;
            }
            proof {
                assert((x as int) * (h as int) + h as int == (x as int + 1) * (h as int))
                    by (nonlinear_arith);
            }
            x = x + 1;
        }
        proof {
            // Every cell of the grid is occupied, yet the map holds fewer
            // entries than the grid has cells.
            self.lemma_dom_finite();
            assert(seen.subset_of(self@.dom()));
            vstd::set_lib::lemma_len_subset(seen, self@.dom());
            assert(false);
        }
        RealCoords { x: 0, y: 0 }
    }

    /// Clears cell `c`; a no-op when the cell is already free.
    pub fn remove(&mut self, c: RealCoords)
        requires
            old(self).wf(),
        ensures
            final(self).wf(),
            final(self)@ == old(self)@.remove(c),
    {
        let n: usize = self.entries.len();
        let mut i: usize = 0;
        while i < n
            invariant
                n == self.entries@.len(),
                0 <= i <= n,
                self.wf(),
                self.entries@ == old(self).entries@,
                forall|j: int| 0 <= j < i ==> (#[trigger] self.entries@[j]).0 != c,
            decreases n - i,
        {
            if self.entries[i].0 == c {
                proof {
                    lemma_entries_remove(self.entries@, i as int);
                }
                self.entries.remove(i);
                return ;
            }
            i = i + 1;
        }
        proof {
            lemma_entries_contains(self.entries@, c);
            assert(self@.remove(c) =~= self@);
        }
    }
}

/// A per-category spatial index, as shared with each system that reads or
/// commits positions of that category.
#[derive(Debug)]
pub struct Lookup<T> {
    pub entities: CoordMap,
    pub default: Option<T>,
}

} // verus!
