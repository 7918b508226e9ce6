//! Out-of-fold prediction bookkeeping: one score slot per training row,
//! each written exactly once, by the single fold whose validation set
//! contains that row.

use vstd::prelude::*;
use crate::score::valid_score;

verus! {

/// Whether one of the first `t` entries of `idx` equals `i`.
pub open spec fn hit_before(idx: Seq<usize>, t: int, i: usize) -> bool {
    exists|j: int| 0 <= j < t && idx[j] == i
}

/// The out-of-fold prediction table: a write-once score slot per row.
/// `None` marks a slot that no fold has written yet.
pub struct OofTable {
    pub entries: Vec<Option<u64>>,
}

impl OofTable {
    /// The row count.
    pub open spec fn n(self) -> int {
        self.entries@.len() as int
    }

    /// Whether row `i`'s slot has been written.
    pub open spec fn written(self, i: int) -> bool {
        self.entries@[i] is Some
    }

    /// Every written slot holds a valid score.
    pub open spec fn all_valid(self) -> bool {
        forall|i: int| 0 <= i < self.n() ==> (#[trigger] self.entries@[i] matches Some(s)
            ==> valid_score(s))
    }

    /// An empty table with one unwritten slot per row.
    pub fn new(n: usize) -> (t: OofTable)
        ensures
            t.n() == n,
            forall|i: int| 0 <= i < n ==> !t.written(i),
            t.all_valid(),
    {
        let mut entries: Vec<Option<u64>> = Vec::new();
        let mut i: usize = 0;
        while i < n
            invariant
                i <= n,
                entries@.len() == i,
                forall|j: int| 0 <= j < i ==> entries@[j] is None,
            decreases n - i,
        {
            entries.push(None);
            i += 1;
        }
        OofTable { entries }
    }

    /// Write one fold's validation predictions into the slots at `idx`.
    /// Every targeted slot must still be unwritten, so each row is written
    /// exactly once across the whole run.
    pub fn write_fold(&mut self, idx: &Vec<usize>, preds: &Vec<u64>)
        requires
            idx@.len() == preds@.len(),
            idx@.no_duplicates(),
            forall|j: int| 0 <= j < idx@.len() ==> #[trigger] idx@[j] < old(self).n(),
            forall|j: int| 0 <= j < idx@.len() ==> !old(self).written(#[trigger] idx@[j] as int),
            forall|j: int| 0 <= j < preds@.len() ==> valid_score(#[trigger] preds@[j]),
            old(self).all_valid(),
        ensures
            final(self).n() == old(self).n(),
            forall|j: int| 0 <= j < idx@.len() ==> final(self).entries@[#[trigger] idx@[j] as int]
                == Some(preds@[j]),
            forall|i: usize| i < old(self).n() && !hit_before(idx@, idx@.len() as int, i)
                ==> final(self).entries@[i as int] == old(self).entries@[i as int],
            final(self).all_valid(),
    {
        let m = idx.len();
        let mut t: usize = 0;
        while t < m
            invariant
                t <= m == idx@.len() == preds@.len(),
                self.n() == old(self).n(),
                idx@.no_duplicates(),
                forall|j: int| 0 <= j < idx@.len() ==> #[trigger] idx@[j] < old(self).n(),
                forall|j: int| 0 <= j < preds@.len() ==> valid_score(#[trigger] preds@[j]),
                forall|j: int| 0 <= j < t ==> self.entries@[#[trigger] idx@[j] as int]
                    == Some(preds@[j]),
                forall|i: usize| i < old(self).n() && !hit_before(idx@, t as int, i)
                    ==> self.entries@[i as int] == old(self).entries@[i as int],
                self.all_valid(),
            decreases m - t,
        {
            let target = idx[t];
            self.entries.set(target, Some(preds[t]));
            t += 1;
            proof {
                assert forall|i: usize| i < old(self).n() && !hit_before(idx@, t as int, i)
                    implies self.entries@[i as int] == old(self).entries@[i as int] by {
                    assert(!hit_before(idx@, t as int - 1, i));
                    assert(idx@[t as int - 1] != i);
                }
                assert forall|j: int| 0 <= j < t implies self.entries@[#[trigger] idx@[j] as int]
                    == Some(preds@[j]) by {
                    if j < t - 1 {
                        assert(idx@[j] != idx@[t - 1]);
                    }
                }
            }
        }
    }

    /// Collapse a fully written table into its score column. Succeeds
    /// exactly when every slot has been written.
    pub fn complete(&self) -> (r: Option<Vec<u64>>)
        ensures
            r is Some <==> (forall|i: int| 0 <= i < self.n() ==> self.written(i)),
            r matches Some(v) ==> {
                &&& v@.len() == self.n()
                &&& forall|i: int| 0 <= i < self.n() ==> self.entries@[i]
                    == Some(#[trigger] v@[i])
            },
    {
        let mut v: Vec<u64> = Vec::new();
        let mut i: usize = 0;
        let n = self.entries.len();
        while i < n
            invariant
                i <= n == self.entries@.len(),
                v@.len() == i,
                forall|j: int| 0 <= j < i ==> self.entries@[j] == Some(#[trigger] v@[j]),
            decreases n - i,
        {
            match self.entries[i] {
                Some(s) => {
                    v.push(s);
                },
                None => {
                    proof {
                        assert(!self.written(i as int));
                    }
                    return None;
                },
            }
            i += 1;
        }
        proof {
            assert forall|j: int| 0 <= j < self.n() implies self.written(j) by {
                assert(self.entries@[j] == Some(v@[j]));
            }
        }
        Some(v)
    }
}

} // verus!
