//! The in-memory feature table: ordered rows of a fixed set of seven
//! numeric features, an optional label column (binary survival), and an
//! optional identifier column, both order-aligned with the rows.
//!
//! Feature values are fixed-point micro-units: the stored integer `v`
//! stands for the real value `v / 1_000_000`.

use vstd::prelude::*;

verus! {

/// One row of engineered features, in the declared column order:
/// passenger class, sex code, age, fare, embarked code, family size,
/// is-alone flag. Fixed arity by construction.
#[derive(Clone, Copy, Debug, PartialEq, Eq, Structural)]
pub struct FeatureRow {
    pub class: i64,
    pub sex_code: i64,
    pub age: i64,
    pub fare: i64,
    pub embarked_code: i64,
    pub family_size: i64,
    pub is_alone: i64,
}

/// A feature table: rows plus optional aligned label and identifier
/// columns.
pub struct FeatureTable {
    pub rows: Vec<FeatureRow>,
    pub labels: Option<Vec<bool>>,
    pub ids: Option<Vec<i64>>,
}

impl FeatureTable {
    /// The row count.
    pub open spec fn n(self) -> int {
        self.rows@.len() as int
    }

    /// Well-formedness: optional columns are order-aligned with the rows,
    /// and identifiers are unique.
    pub open spec fn wf(self) -> bool {
        &&& (self.labels matches Some(l) ==> l@.len() == self.rows@.len())
        &&& (self.ids matches Some(d) ==> d@.len() == self.rows@.len() && d@.no_duplicates())
    }

    /// The number of rows.
    pub fn row_count(&self) -> (n: usize)
        ensures
            n == self.n(),
    {
        self.rows.len()
    }

    /// Gather the rows at the given indices, in index order.
    pub fn gather_rows(&self, idx: &Vec<usize>) -> (out: Vec<FeatureRow>)
        requires
            forall|i: int| 0 <= i < idx@.len() ==> #[trigger] idx@[i] < self.rows@.len(),
        ensures
            out@ == idx@.map_values(|j: usize| self.rows@[j as int]),
    {
        let mut out: Vec<FeatureRow> = Vec::new();
        let mut i: usize = 0;
        while i < idx.len()
            invariant
                i <= idx@.len(),
                forall|t: int| 0 <= t < idx@.len() ==> #[trigger] idx@[t] < self.rows@.len(),
                out@ == idx@.take(i as int).map_values(|j: usize| self.rows@[j as int]),
            decreases idx@.len() - i,
        {
            out.push(self.rows[idx[i]]);
            i += 1;
            proof {
                assert(out@ =~= idx@.take(i as int).map_values(
                    |j: usize| self.rows@[j as int],
                ));
            }
        }
        proof {
            assert(idx@.take(idx@.len() as int) =~= idx@);
        }
        out
    }

    /// Gather the labels at the given indices, in index order.
    pub fn gather_labels(&self, idx: &Vec<usize>) -> (out: Vec<bool>)
        requires
            self.wf(),
            self.labels is Some,
            forall|i: int| 0 <= i < idx@.len() ==> #[trigger] idx@[i] < self.rows@.len(),
        ensures
            out@ == idx@.map_values(|j: usize| self.labels->Some_0@[j as int]),
    {
        let labels = self.labels.as_ref().unwrap();
        let mut out: Vec<bool> = Vec::new();
        let mut i: usize = 0;
        while i < idx.len()
            invariant
                i <= idx@.len(),
                self.labels matches Some(l) && l@ == labels@,
                labels@.len() == self.rows@.len(),
                forall|t: int| 0 <= t < idx@.len() ==> #[trigger] idx@[t] < self.rows@.len(),
                out@ == idx@.take(i as int).map_values(|j: usize| labels@[j as int]),
            decreases idx@.len() - i,
        {
            out.push(labels[idx[i]]);
            i += 1;
            proof {
                assert(out@ =~= idx@.take(i as int).map_values(|j: usize| labels@[j as int]));
            }
        }
        proof {
            assert(idx@.take(idx@.len() as int) =~= idx@);
        }
        out
    }
}

} // verus!
