//! Deterministic fold planning: partition the row indices `[0, n)` into `k`
//! disjoint validation folds by a seeded shuffle followed by contiguous
//! slicing. The seed fully determines the permutation, so the same
//! `(n, k, seed)` always yields the same assignment.

use vstd::prelude::*;
use vstd::seq_lib::group_to_multiset_ensures;
use crate::errors::PipelineError;
use rand::rngs::SmallRng;
use rand::seq::SliceRandom;
use rand::SeedableRng;

verus! {

/// The permutation that the seeded shuffle applies to a sequence. The seed
/// and the sequence alone determine the outcome.
pub uninterp spec fn shuffle_of(s: Seq<usize>, seed: u64) -> Seq<usize>;

/// Relies on rand's `SliceRandom::shuffle` driven by
/// `SmallRng::seed_from_u64`: the shuffle is a Fisher-Yates pass that swaps
/// elements in place, so it permutes the slice (the multiset of elements is
/// unchanged), and every swap index is drawn from the seeded generator, so
/// the outcome is a pure function of the slice and the seed.
#[verifier::external_body]
fn shuffle_seeded(v: &mut Vec<usize>, seed: u64)
    ensures
        final(v)@ == shuffle_of(old(v)@, seed),
        final(v)@.to_multiset() == old(v)@.to_multiset(),
{
    v.shuffle(&mut SmallRng::seed_from_u64(seed));
}

/// The identity sequence `0, 1, ..., n - 1`.
pub open spec fn index_seq(n: nat) -> Seq<usize> {
    Seq::new(n, |i: int| i as usize)
}

/// Basic facts about the identity sequence.
proof fn lemma_index_seq_props(n: int)
    requires
        0 <= n <= usize::MAX,
    ensures
        index_seq(n as nat).len() == n,
        index_seq(n as nat).no_duplicates(),
        forall|v: usize| v < n <==> #[trigger] index_seq(n as nat).contains(v),
        forall|i: int| 0 <= i < n ==> #[trigger] index_seq(n as nat)[i] < n,
{
    let s = index_seq(n as nat);
    assert forall|v: usize| v < n implies s.contains(v) by {
        assert(s[v as int] == v);
    }
}

/// A sequence with the same multiset of elements as the identity sequence
/// is a permutation of `[0, n)`: it has length `n`, no duplicates, every
/// element below `n`, and it contains every value below `n`.
proof fn lemma_perm_of_index_seq(s: Seq<usize>, n: int)
    requires
        0 <= n <= usize::MAX,
        s.to_multiset() == index_seq(n as nat).to_multiset(),
    ensures
        s.len() == n,
        s.no_duplicates(),
        forall|i: int| 0 <= i < s.len() ==> s[i] < n,
        forall|v: usize| v < n ==> s.contains(v),
{
    broadcast use group_to_multiset_ensures;

    let t = index_seq(n as nat);
    lemma_index_seq_props(n);
    assert(s.len() == s.to_multiset().len());
    assert(t.len() == t.to_multiset().len());
    assert forall|v: usize| v < n implies s.contains(v) by {
        assert(t.contains(v));
        assert(t.to_multiset().count(v) > 0);
        assert(s.to_multiset().count(v) > 0);
    }
    assert forall|i: int| 0 <= i < s.len() implies s[i] < n by {
        assert(s.contains(s[i]));
        assert(s.to_multiset().count(s[i]) > 0);
        assert(t.to_multiset().count(s[i]) > 0);
        assert(t.contains(s[i]));
    }
    t.lemma_multiset_has_no_duplicates();
    assert forall|x: usize|
        s.to_multiset().contains(x) implies s.to_multiset().count(x) == 1 by {
        assert(t.to_multiset().contains(x));
    }
    s.lemma_multiset_has_no_duplicates_conv();
}

/// Build the vector `0, 1, ..., n - 1`.
fn iota(n: usize) -> (v: Vec<usize>)
    ensures
        v@ == index_seq(n as nat),
{
    let mut v: Vec<usize> = Vec::new();
    let mut i: usize = 0;
    while i < n
        invariant
            i <= n,
            v@ == index_seq(i as nat),
        decreases n - i,
    {
        v.push(i);
        i += 1;
        proof {
            assert(v@ =~= index_seq(i as nat));
        }
    }
    v
}

/// A deterministic partition of the row indices `[0, n)` into `k`
/// validation folds: `order` is a seeded permutation of `[0, n)` and fold
/// `f` owns the contiguous slice `[fold_start(f), fold_start(f + 1))` of it.
#[derive(Debug)]
pub struct FoldAssignment {
    /// The shuffled row indices; a permutation of `[0, n)`.
    pub order: Vec<usize>,
    /// The fold count; between 2 and `n`.
    pub k: usize,
}

impl FoldAssignment {
    /// The row count.
    pub open spec fn n(self) -> int {
        self.order@.len() as int
    }

    /// Well-formedness: a valid fold count and a permutation of `[0, n)` —
    /// no duplicates, every element below `n`, every index below `n` present.
    pub open spec fn wf(self) -> bool {
        &&& 2 <= self.k <= self.n()
        &&& self.order@.no_duplicates()
        &&& forall|i: int| 0 <= i < self.n() ==> self.order@[i] < self.n()
        &&& forall|v: usize| v < self.n() ==> self.order@.contains(v)
    }

    /// The base fold size `n / k`.
    pub open spec fn base_size(self) -> int {
        self.n() / (self.k as int)
    }

    /// The number of folds that get one extra row, `n % k`.
    pub open spec fn remainder(self) -> int {
        self.n() % (self.k as int)
    }

    /// Where fold `f`'s slice of the shuffled order begins; the first
    /// `remainder` folds each get one extra row.
    pub open spec fn fold_start(self, f: int) -> int {
        f * self.base_size() + if f <= self.remainder() {
            f
        } else {
            self.remainder()
        }
    }

    /// The number of rows fold `f` validates on.
    pub open spec fn fold_size(self, f: int) -> int {
        self.fold_start(f + 1) - self.fold_start(f)
    }

    /// The validation indices of fold `f`, in shuffled order.
    pub open spec fn fold_seq(self, f: int) -> Seq<usize> {
        self.order@.subrange(self.fold_start(f), self.fold_start(f + 1))
    }

    /// The set of rows fold `f` validates on.
    pub open spec fn fold_set(self, f: int) -> Set<usize> {
        self.fold_seq(f).to_set()
    }

    /// The training indices of fold `f`: the shuffled order with fold
    /// `f`'s slice cut out.
    pub open spec fn train_seq(self, f: int) -> Seq<usize> {
        self.order@.take(self.fold_start(f)) + self.order@.skip(self.fold_start(f + 1))
    }

    /// A fold's validation slice is non-empty, duplicate-free, stays below
    /// the row count, and its set membership coincides with sequence
    /// membership.
    pub proof fn lemma_fold_seq_props(self, f: int)
        requires
            self.wf(),
            0 <= f < self.k as int,
        ensures
            self.fold_seq(f).len() == self.fold_size(f),
            1 <= self.fold_size(f),
            forall|j: int| 0 <= j < self.fold_seq(f).len() ==> #[trigger] self.fold_seq(f)[j]
                < self.n(),
            self.fold_seq(f).no_duplicates(),
            forall|v: usize| self.fold_set(f).contains(v) <==> self.fold_seq(f).contains(v),
    {
        self.lemma_fold_start_in_range(f);
        self.lemma_fold_start_in_range(f + 1);
        self.lemma_fold_step(f);
        self.lemma_fold_start_monotone(f + 1, self.k as int);
        let s = self.fold_seq(f);
        let sf = self.fold_start(f);
        assert forall|j: int| 0 <= j < s.len() implies #[trigger] s[j] < self.n() by {
            assert(s[j] == self.order@[sf + j]);
        }
        assert forall|i: int, j: int| 0 <= i < s.len() && 0 <= j < s.len() && i != j
            implies s[i] != s[j] by {
            assert(s[i] == self.order@[sf + i]);
            assert(s[j] == self.order@[sf + j]);
        }
    }

    /// A fold's training slice leaves out exactly the validation rows: it
    /// has the complementary length and every element below the row count.
    pub proof fn lemma_train_seq_props(self, f: int)
        requires
            self.wf(),
            0 <= f < self.k as int,
        ensures
            self.train_seq(f).len() == self.n() - self.fold_size(f),
            forall|j: int| 0 <= j < self.train_seq(f).len() ==> #[trigger] self.train_seq(f)[j]
                < self.n(),
    {
        self.lemma_fold_start_in_range(f);
        self.lemma_fold_start_in_range(f + 1);
        self.lemma_fold_step(f);
        self.lemma_fold_start_monotone(f + 1, self.k as int);
        let s = self.train_seq(f);
        let sf = self.fold_start(f);
        let ef = self.fold_start(f + 1);
        assert forall|j: int| 0 <= j < s.len() implies #[trigger] s[j] < self.n() by {
            if j < sf {
                assert(s[j] == self.order@[j]);
            } else {
                assert(s[j] == self.order@[ef + (j - sf)]);
            }
        }
    }

    /// Each fold is the base size, plus one for the first `remainder` folds.
    pub proof fn lemma_fold_step(self, f: int)
        requires
            self.wf(),
            0 <= f < self.k as int,
        ensures
            self.fold_size(f) == self.base_size() + if f < self.remainder() {
                1int
            } else {
                0int
            },
    {
        let b = self.base_size();
        assert((f + 1) * b == f * b + b) by (nonlinear_arith);
    }

    /// The fold boundaries stay inside `[0, n]`, begin at 0 and end at `n`,
    /// and the base size is at least one row.
    pub proof fn lemma_fold_start_in_range(self, f: int)
        requires
            self.wf(),
            0 <= f <= self.k as int,
        ensures
            0 <= self.fold_start(f) <= self.n(),
            self.fold_start(0) == 0,
            self.fold_start(self.k as int) == self.n(),
            1 <= self.base_size(),
            0 <= self.remainder() < self.k as int,
        decreases self.k as int - f,
    {
        let k = self.k as int;
        let n = self.n();
        let b = self.base_size();
        let r = self.remainder();
        vstd::arithmetic::div_mod::lemma_fundamental_div_mod(n, k);
        vstd::arithmetic::div_mod::lemma_mod_division_less_than_divisor(n, k);
        assert(b >= 1) by {
            vstd::arithmetic::div_mod::lemma_div_is_ordered(k, n, k);
            vstd::arithmetic::div_mod::lemma_div_by_self(k);
        }
        assert(k * b == b * k) by (nonlinear_arith);
        assert(self.fold_start(k) == n);
        assert(0 * b == 0) by (nonlinear_arith);
        assert(self.fold_start(0) == 0);
        if f < k {
            assert(f * b >= 0) by (nonlinear_arith)
                requires
                    f >= 0,
                    b >= 0,
            ;
            self.lemma_fold_step(f);
            self.lemma_fold_start_in_range(f + 1);
        }
    }

    /// The fold boundaries are nondecreasing.
    pub proof fn lemma_fold_start_monotone(self, a: int, c: int)
        requires
            self.wf(),
            0 <= a <= c <= self.k as int,
        ensures
            self.fold_start(a) <= self.fold_start(c),
        decreases c - a,
    {
        if a < c {
            self.lemma_fold_start_in_range(a);
            self.lemma_fold_step(a);
            self.lemma_fold_start_monotone(a + 1, c);
        }
    }

    /// The fold that owns position `i` of the shuffled order: the unique
    /// `g` with `fold_start(g) <= i < fold_start(g + 1)`, found from `f` up.
    proof fn lemma_find_fold(self, i: int, f: int) -> (g: int)
        requires
            self.wf(),
            0 <= f < self.k as int,
            self.fold_start(f) <= i < self.n(),
        ensures
            f <= g < self.k as int,
            self.fold_start(g) <= i < self.fold_start(g + 1),
        decreases self.k as int - f,
    {
        self.lemma_fold_start_in_range(f);
        if i < self.fold_start(f + 1) {
            f
        } else {
            assert(f + 1 < self.k as int) by {
                self.lemma_fold_start_in_range(f + 1);
            }
            self.lemma_find_fold(i, f + 1)
        }
    }
}

impl FoldAssignment {
    /// The number of rows the assignment partitions.
    pub fn row_count(&self) -> (n: usize)
        ensures
            n == self.n(),
    {
        self.order.len()
    }

    /// The fold count.
    pub fn fold_count(&self) -> (k: usize)
        ensures
            k == self.k,
    {
        self.k
    }

    /// Where fold `f`'s slice of the shuffled order begins.
    fn start_of(&self, f: usize) -> (s: usize)
        requires
            self.wf(),
            f <= self.k,
        ensures
            s == self.fold_start(f as int),
    {
        proof {
            self.lemma_fold_start_in_range(f as int);
        }
        let n = self.order.len();
        let base = n / self.k;
        let rem = n % self.k;
        let extra = if f <= rem {
            f
        } else {
            rem
        };
        proof {
            assert(f as int * base as int + extra as int == self.fold_start(f as int));
        }
        f * base + extra
    }

    /// The number of rows fold `f` validates on.
    pub fn fold_size_of(&self, f: usize) -> (s: usize)
        requires
            self.wf(),
            f < self.k,
        ensures
            s == self.fold_size(f as int),
    {
        let a = self.start_of(f);
        let b = self.start_of(f + 1);
        proof {
            self.lemma_fold_start_in_range(f as int);
            self.lemma_fold_start_in_range(f as int + 1);
            self.lemma_fold_step(f as int);
        }
        b - a
    }

    /// The validation indices of fold `f`, in shuffled order.
    pub fn valid_indices(&self, f: usize) -> (v: Vec<usize>)
        requires
            self.wf(),
            f < self.k,
        ensures
            v@ == self.fold_seq(f as int),
    {
        let s = self.start_of(f);
        let e = self.start_of(f + 1);
        proof {
            self.lemma_fold_start_in_range(f as int);
            self.lemma_fold_start_in_range(f as int + 1);
            self.lemma_fold_step(f as int);
            self.lemma_fold_start_monotone(f as int + 1, self.k as int);
        }
        let mut v: Vec<usize> = Vec::new();
        let mut i: usize = s;
        while i < e
            invariant
                s <= i <= e <= self.order@.len(),
                v@ == self.order@.subrange(s as int, i as int),
            decreases e - i,
        {
            v.push(self.order[i]);
            i += 1;
            proof {
                assert(v@ =~= self.order@.subrange(s as int, i as int));
            }
        }
        v
    }

    /// The training indices of fold `f`: every row index outside fold `f`,
    /// in shuffled order — the prefix before the fold's slice followed by
    /// the suffix after it.
    pub fn train_indices(&self, f: usize) -> (v: Vec<usize>)
        requires
            self.wf(),
            f < self.k,
        ensures
            v@ == self.train_seq(f as int),
    {
        let s = self.start_of(f);
        let e = self.start_of(f + 1);
        let n = self.order.len();
        proof {
            self.lemma_fold_start_in_range(f as int);
            self.lemma_fold_start_in_range(f as int + 1);
            self.lemma_fold_step(f as int);
            self.lemma_fold_start_monotone(f as int + 1, self.k as int);
        }
        let mut v: Vec<usize> = Vec::new();
        let mut i: usize = 0;
        while i < s
            invariant
                i <= s <= self.order@.len(),
                v@ == self.order@.subrange(0, i as int),
            decreases s - i,
        {
            v.push(self.order[i]);
            i += 1;
            proof {
                assert(v@ =~= self.order@.subrange(0, i as int));
            }
        }
        let mut j: usize = e;
        while j < n
            invariant
                s <= e <= j <= n == self.order@.len(),
                v@ == self.order@.subrange(0, s as int) + self.order@.subrange(
                    e as int,
                    j as int,
                ),
            decreases n - j,
        {
            v.push(self.order[j]);
            j += 1;
            proof {
                assert(v@ =~= self.order@.subrange(0, s as int) + self.order@.subrange(
                    e as int,
                    j as int,
                ));
            }
        }
        proof {
            assert(v@ =~= self.order@.take(s as int) + self.order@.skip(e as int));
        }
        v
    }
}

/// Plans deterministic validation folds for k-fold cross-validation.
pub struct FoldPlanner;

/// The assignment that `plan` returns for `(n, k, seed)`: `k` contiguous
/// folds over the seeded permutation of `[0, n)`.
pub open spec fn is_plan_of(p: FoldAssignment, n: usize, k: usize, seed: u64) -> bool {
    &&& p.k == k
    &&& p.order@ == shuffle_of(index_seq(n as nat), seed)
    &&& p.order@.len() == n
}

impl FoldPlanner {
    /// Partition the row indices `[0, n)` into `k` seeded validation folds.
    /// Succeeds exactly when `2 <= k <= n`; any other fold count is an
    /// `InvalidConfig` error.
    pub fn plan(n: usize, k: usize, seed: u64) -> (r: Result<FoldAssignment, PipelineError>)
        ensures
            r is Ok <==> 2 <= k <= n,
            r matches Err(e) ==> e == PipelineError::InvalidConfig,
            r matches Ok(p) ==> p.wf() && is_plan_of(p, n, k, seed),
    {
        if k < 2 || k > n {
            return Err(PipelineError::InvalidConfig);
        }
        let mut order = iota(n);
        shuffle_seeded(&mut order, seed);
        proof {
            lemma_perm_of_index_seq(order@, n as int);
        }
        Ok(FoldAssignment { order, k })
    }
}

/// The sum of the sizes of the first `f` folds.
pub open spec fn sum_fold_sizes(p: FoldAssignment, f: int) -> int
    decreases f,
{
    if f <= 0 {
        0
    } else {
        sum_fold_sizes(p, f - 1) + p.fold_size(f - 1)
    }
}

/// The fold sizes telescope: the first `f` of them sum to `fold_start(f)`.
proof fn lemma_sum_fold_sizes(p: FoldAssignment, f: int)
    requires
        p.wf(),
        0 <= f <= p.k as int,
    ensures
        sum_fold_sizes(p, f) == p.fold_start(f),
    decreases f,
{
    p.lemma_fold_start_in_range(0);
    if f > 0 {
        lemma_sum_fold_sizes(p, f - 1);
    }
}

/// The fold boundary formula over plain counts: where fold `f`'s slice of
/// the shuffled order begins, for a row count `n` and fold count `k`.
pub open spec fn spec_fold_start(n: int, k: int, f: int) -> int {
    f * (n / k) + if f <= n % k {
        f
    } else {
        n % k
    }
}

/// The fold size formula over plain counts.
pub open spec fn spec_fold_size(n: int, k: int, f: int) -> int {
    spec_fold_start(n, k, f + 1) - spec_fold_start(n, k, f)
}

/// The validation slice of fold `f` of the planned permutation for
/// `(n, k, seed)`.
pub open spec fn planned_fold_seq(n: usize, k: usize, seed: u64, f: int) -> Seq<usize> {
    shuffle_of(index_seq(n as nat), seed).subrange(
        spec_fold_start(n as int, k as int, f),
        spec_fold_start(n as int, k as int, f + 1),
    )
}

/// A planned assignment's geometry is the formula over plain counts: its
/// fold boundaries, sizes and validation slices are those of
/// `spec_fold_start`, `spec_fold_size` and `planned_fold_seq`.
pub proof fn lemma_planned_geometry(p: FoldAssignment, n: usize, k: usize, seed: u64)
    requires
        p.wf(),
        is_plan_of(p, n, k, seed),
    ensures
        forall|f: int| #[trigger] p.fold_start(f) == spec_fold_start(n as int, k as int, f),
        forall|f: int| #[trigger] p.fold_size(f) == spec_fold_size(n as int, k as int, f),
        forall|f: int| #[trigger] p.fold_seq(f) == planned_fold_seq(n, k, seed, f),
{
    assert forall|f: int| #[trigger] p.fold_start(f) == spec_fold_start(
        n as int,
        k as int,
        f,
    ) by {
        assert(p.n() == n);
    }
}

/// Row `v` lies in the validation set of one of the first `nf` folds.
pub open spec fn covered_before(p: FoldAssignment, nf: int, v: usize) -> bool {
    exists|f: int| 0 <= f < nf && #[trigger] p.fold_set(f).contains(v)
}

/// Row `v` lies in the validation set of at least one fold.
pub open spec fn covered_by_some_fold(p: FoldAssignment, v: usize) -> bool {
    covered_before(p, p.k as int, v)
}

/// The planned folds partition the rows: the fold sizes sum to the row
/// count and each is the base size `n / k` or one more (the first `n % k`
/// folds take the extra row); the validation sets are pairwise disjoint;
/// and together they cover exactly the row indices `[0, n)`.
pub proof fn lemma_fold_partition(p: FoldAssignment)
    requires
        p.wf(),
    ensures
        sum_fold_sizes(p, p.k as int) == p.n(),
        forall|f: int| 0 <= f < p.k as int ==> #[trigger] p.fold_size(f) == p.base_size()
            + if f < p.remainder() { 1int } else { 0int },
        forall|f: int, g: int| 0 <= f < g < p.k as int ==> p.fold_set(f).disjoint(p.fold_set(g)),
        forall|v: usize| v < p.n() <==> #[trigger] covered_by_some_fold(p, v),
{
    let k = p.k as int;
    let n = p.n();
    lemma_sum_fold_sizes(p, k);
    p.lemma_fold_start_in_range(k);
    assert forall|f: int| 0 <= f < k implies #[trigger] p.fold_size(f) == p.base_size()
        + if f < p.remainder() { 1int } else { 0int } by {
        p.lemma_fold_step(f);
    }
    assert forall|f: int, g: int| 0 <= f < g < k implies p.fold_set(f).disjoint(
        p.fold_set(g),
    ) by {
        p.lemma_fold_start_in_range(f);
        p.lemma_fold_start_in_range(f + 1);
        p.lemma_fold_start_in_range(g);
        p.lemma_fold_start_in_range(g + 1);
        p.lemma_fold_start_monotone(0, f);
        p.lemma_fold_start_monotone(f + 1, g);
        p.lemma_fold_start_monotone(g + 1, k);
        p.lemma_fold_step(f);
        p.lemma_fold_step(g);
        assert forall|v: usize| p.fold_set(f).contains(v) implies !p.fold_set(g).contains(
            v,
        ) by {
            let sf = p.fold_start(f);
            let ef = p.fold_start(f + 1);
            let sg = p.fold_start(g);
            let eg = p.fold_start(g + 1);
            assert(p.fold_seq(f).contains(v));
            let i = choose|i: int| 0 <= i < p.fold_seq(f).len() && p.fold_seq(f)[i] == v;
            assert(p.fold_seq(f).len() == ef - sf);
            assert(p.fold_seq(f)[i] == p.order@[sf + i]);
            if p.fold_set(g).contains(v) {
                assert(p.fold_seq(g).contains(v));
                let j = choose|j: int| 0 <= j < p.fold_seq(g).len() && p.fold_seq(g)[j] == v;
                assert(p.fold_seq(g).len() == eg - sg);
                assert(p.fold_seq(g)[j] == p.order@[sg + j]);
                assert(sf + i < sg + j);
            }
        }
    }
    assert forall|v: usize| v < n implies #[trigger] covered_by_some_fold(p, v) by {
        assert(p.order@.contains(v));
        let i = choose|i: int| 0 <= i < p.order@.len() && p.order@[i] == v;
        p.lemma_fold_start_in_range(0);
        let g = p.lemma_find_fold(i, 0);
        p.lemma_fold_start_in_range(g);
        p.lemma_fold_start_in_range(g + 1);
        p.lemma_fold_start_monotone(g + 1, k);
        assert(p.fold_seq(g)[i - p.fold_start(g)] == v);
        assert(p.fold_set(g).contains(v));
    }
    assert forall|v: usize| #[trigger] covered_by_some_fold(p, v) implies v < n by {
        let f = choose|f: int| 0 <= f < k && p.fold_set(f).contains(v);
        p.lemma_fold_start_in_range(f);
        p.lemma_fold_start_in_range(f + 1);
        p.lemma_fold_start_monotone(0, f);
        p.lemma_fold_start_monotone(f + 1, k);
        p.lemma_fold_step(f);
        assert(p.fold_seq(f).contains(v));
        let i = choose|i: int| 0 <= i < p.fold_seq(f).len() && p.fold_seq(f)[i] == v;
        assert(p.order@[p.fold_start(f) + i] == v);
    }
}

/// Determinism: the same `(n, k, seed)` always yields the same assignment.
/// Two planned assignments for equal inputs have the same fold count, the
/// same shuffled order, and therefore identical validation folds.
pub proof fn lemma_plan_deterministic(
    p1: FoldAssignment,
    p2: FoldAssignment,
    n: usize,
    k: usize,
    seed: u64,
)
    requires
        is_plan_of(p1, n, k, seed),
        is_plan_of(p2, n, k, seed),
    ensures
        p1.k == p2.k,
        p1.order@ == p2.order@,
        forall|f: int| 0 <= f < k ==> p1.fold_seq(f) == p2.fold_seq(f),
{
}

} // verus!
