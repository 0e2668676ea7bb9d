//! Bounded per-function timing records, kept by the host loop for the
//! debug overlay.  Durations are plain milliseconds.

use vstd::prelude::*;

verus! {

/// Per-function duration histories: at most `max_entries` recent durations
/// are kept for each name, oldest dropped first.
pub struct Performance {
    data: Vec<(String, Vec<u64>)>,
    max_entries: usize,
}

impl Performance {
    /// The recorded names and their duration histories, in first-seen order.
    pub closed spec fn entries(&self) -> Seq<(Seq<char>, Seq<u64>)> {
        self.data@.map_values(|e: (String, Vec<u64>)| (e.0@, e.1@))
    }

    /// The bound every history respects.
    pub closed spec fn cap(&self) -> usize {
        self.max_entries
    }

    /// One history per name.
    pub closed spec fn wf(&self) -> bool {
        forall|i: int, j: int|
            0 <= i < j < self.data@.len() ==> (#[trigger] self.data@[i]).0@ != (
            #[trigger] self.data@[j]).0@
    }

    /// An empty record keeping at most `max_entries` durations per name.
    pub fn new(max_entries: usize) -> (r: Performance)
        ensures
            r.wf(),
            r.entries().len() == 0,
            r.cap() == max_entries,
    {
        Performance { data: Vec::new(), max_entries }
    }

    /// The durations recorded for `function_name`, oldest first; empty for
    /// an unknown name.
    pub fn history(&self, function_name: &str) -> (r: Vec<u64>)
        requires
            self.wf(),
        ensures
            (exists|i: int|
                0 <= i < self.entries().len() && (#[trigger] self.entries()[i]).0
                    == function_name@) ==> exists|i: int|
                0 <= i < self.entries().len() && (#[trigger] self.entries()[i]).0 == function_name@
                    && r@ == self.entries()[i].1,
            !(exists|i: int|
                0 <= i < self.entries().len() && (#[trigger] self.entries()[i]).0
                    == function_name@) ==> r@.len() == 0,
    {
        let name: String = function_name.to_owned();
        let n: usize = self.data.len();
        let mut i: usize = 0;
        while i < n
            invariant
                self.wf(),
                name@ == function_name@,
                n == self.data@.len(),
                0 <= i <= n,
                forall|j: int| 0 <= j < i ==> (#[trigger] self.data@[j]).0@ != function_name@,
            decreases n - i,
        {
            if self.data[i].0 == name {
                let m: usize = self.data[i].1.len();
                let mut out: Vec<u64> = Vec::new();
                let mut k: usize = 0;
                while k < m
                    invariant
                        0 <= i < self.data@.len(),
                        m == self.data@[i as int].1@.len(),
                        0 <= k <= m,
                        out@ == self.data@[i as int].1@.take(k as int),
                    decreases m - k,
                {
                    out.push(self.data[i].1[k]);
                    proof {
                        assert(out@ =~= self.data@[i as int].1@.take(k + 1));
                    }
                    k = k + 1;
                }
                proof {
                    assert(out@ =~= self.data@[i as int].1@);
                    assert(self.entries()[i as int].0 == function_name@);
                }
                return out;
            }
            i = i + 1;
        }
        Vec::new()
    }

    /// Appends one duration to `function_name`'s history, dropping the
    /// oldest entry when the history is full; a first duration opens a new
    /// history.
    pub fn add_duration(&mut self, function_name: &str, duration: u64)
        requires
            old(self).wf(),
        ensures
            final(self).wf(),
            final(self).cap() == old(self).cap(),
            (exists|i: int|
                0 <= i < old(self).entries().len() && (#[trigger] old(self).entries()[i]).0
                    == function_name@) ==> {
                final(self).entries().len() == old(self).entries().len() && exists|i: int|
                    {
                        &&& 0 <= i < old(self).entries().len()
                        &&& (#[trigger] old(self).entries()[i]).0 == function_name@
                        &&& final(self).entries()[i].0 == function_name@
                        &&& final(self).entries()[i].1 == (if old(self).entries()[i].1.len()
                            >= old(self).cap() && old(self).entries()[i].1.len() > 0 {
                            old(self).entries()[i].1.drop_first().push(duration)
                        } else {
                            old(self).entries()[i].1.push(duration)
                        })
                        &&& forall|j: int|
                            0 <= j < old(self).entries().len() && j != i ==> final(self).entries()[j]
                                == #[trigger] old(self).entries()[j]
                    }
            },
            !(exists|i: int|
                0 <= i < old(self).entries().len() && (#[trigger] old(self).entries()[i]).0
                    == function_name@) ==> {
                &&& final(self).entries().len() == old(self).entries().len() + 1
                &&& final(self).entries().last() == (function_name@, seq![duration])
                &&& forall|j: int|
                    0 <= j < old(self).entries().len() ==> final(self).entries()[j] == #[trigger] old(
                        self,
                    ).entries()[j]
            },
    {
        let name: String = function_name.to_owned();
        let n: usize = self.data.len();
        let mut i: usize = 0;
        while i < n
            invariant
                old(self).wf(),
                *self == *old(self),
                name@ == function_name@,
                n == self.data@.len(),
                0 <= i <= n,
                forall|j: int| 0 <= j < i ==> (#[trigger] self.data@[j]).0@ != function_name@,
            decreases n - i,
        {
            if self.data[i].0 == name {
                let len: usize = self.data[i].1.len();
                if len >= self.max_entries && len > 0 {
                    self.data[i].1.remove(0);
                }
                self.data[i].1.push(duration);
                proof {
                    if old(self).entries()[i as int].1.len() >= old(self).cap() && old(
                        self,
                    ).entries()[i as int].1.len() > 0 {
                        assert(self.data@[i as int].1@ == old(self).data@[i as int].1@.drop_first().push(
                            duration,
                        ));
                    }
                    assert(self.entries()[i as int].1 == (if old(self).entries()[i as int].1.len()
                        >= old(self).cap() && old(self).entries()[i as int].1.len() > 0 {
                        old(self).entries()[i as int].1.drop_first().push(duration)
                    } else {
                        old(self).entries()[i as int].1.push(duration)
                    }));
                    assert forall|j: int|
                        0 <= j < old(self).entries().len() && j != i implies self.entries()[j]
                        == #[trigger] old(self).entries()[j] by {
                        assert(self.data@[j] == old(self).data@[j]);
                    }
                }
                return ;
            }
            i = i + 1;
        }
        let mut first: Vec<u64> = Vec::new();
        first.push(duration);
        self.data.push((name, first));
        proof {
            assert(self.data@.last().0@ == function_name@);
            assert(self.data@.last().1@ == seq![duration]);
            assert forall|j: int|
                0 <= j < old(self).entries().len() implies self.entries()[j] == #[trigger] old(
                self,
            ).entries()[j] by {
                assert(self.data@[j] == old(self).data@[j]);
            }
            assert forall|p: int, q: int| 0 <= p < q < self.data@.len() implies (
            #[trigger] self.data@[p]).0@ != (#[trigger] self.data@[q]).0@ by {
                if q == self.data@.len() - 1 {
                    assert(self.data@[p] == old(self).data@[p]);
                }
            }
        }
    }
}

} // verus!
