//! Fixed-point scores and the shared decision threshold.
//!
//! A score is a probability-like value in micro-units: `s` stands for
//! `s / 1_000_000`, so valid scores lie in `0 ..= SCORE_SCALE`. The binary
//! label is derived by the one decision threshold (one half) that both
//! training-time accuracy and inference-time labelling use.

use vstd::prelude::*;

verus! {

/// One unit of probability, in micro-units: `SCORE_SCALE` stands for 1.0.
pub const SCORE_SCALE: u64 = 1_000_000;

/// The decision threshold, one half in micro-units.
pub const SCORE_HALF: u64 = 500_000;

/// A score is valid when it lies in the unit interval.
pub open spec fn valid_score(s: u64) -> bool {
    s <= SCORE_SCALE
}

/// Every score of the sequence lies in the unit interval.
pub open spec fn all_valid_scores(s: Seq<u64>) -> bool {
    forall|i: int| 0 <= i < s.len() ==> valid_score(#[trigger] s[i])
}

/// The binary label a score decides: positive exactly when the score
/// exceeds one half.
pub open spec fn spec_label_of(s: u64) -> bool {
    s > SCORE_HALF
}

/// Threshold a score into a binary label.
pub fn label_of(s: u64) -> (b: bool)
    ensures
        b == spec_label_of(s),
{
    s > SCORE_HALF
}

/// The sum of the first `t` values of `s`.
pub open spec fn sum_prefix(s: Seq<u64>, t: int) -> int
    decreases t,
{
    if t <= 0 {
        0
    } else {
        sum_prefix(s, t - 1) + s[t - 1]
    }
}

/// The sum of all values of `s`.
pub open spec fn sum_of(s: Seq<u64>) -> int {
    sum_prefix(s, s.len() as int)
}

/// A prefix sum of valid scores is at most `t * SCORE_SCALE`.
pub proof fn lemma_sum_prefix_bound(s: Seq<u64>, t: int)
    requires
        0 <= t <= s.len(),
        all_valid_scores(s),
    ensures
        0 <= sum_prefix(s, t) <= t * SCORE_SCALE,
    decreases t,
{
    if t > 0 {
        lemma_sum_prefix_bound(s, t - 1);
        assert(t * SCORE_SCALE == (t - 1) * SCORE_SCALE + SCORE_SCALE) by (nonlinear_arith);
    }
}

/// The floor of the unweighted mean of the values, in micro-units.
pub open spec fn spec_mean(s: Seq<u64>) -> int {
    sum_of(s) / (s.len() as int)
}

/// The unweighted mean (rounded down to a micro-unit) of a non-empty
/// sequence of valid scores; the mean of valid scores is itself a valid
/// score.
pub fn mean_micros(s: &Vec<u64>) -> (m: u64)
    requires
        s@.len() > 0,
        all_valid_scores(s@),
    ensures
        m == spec_mean(s@),
        valid_score(m),
{
    let n = s.len();
    let mut acc: u128 = 0;
    let mut i: usize = 0;
    while i < n
        invariant
            i <= n == s@.len(),
            all_valid_scores(s@),
            acc == sum_prefix(s@, i as int),
            acc <= (i as u128) * (SCORE_SCALE as u128),
        decreases n - i,
    {
        proof {
            lemma_sum_prefix_bound(s@, i as int + 1);
            assert((i as int + 1) * SCORE_SCALE == i as int * SCORE_SCALE + SCORE_SCALE)
                by (nonlinear_arith);
        }
        acc = acc + (s[i] as u128);
        i += 1;
    }
    proof {
        lemma_sum_prefix_bound(s@, n as int);
        vstd::arithmetic::div_mod::lemma_div_multiples_vanish(
            SCORE_SCALE as int,
            n as int,
        );
        vstd::arithmetic::div_mod::lemma_div_is_ordered(
            sum_of(s@),
            n as int * SCORE_SCALE,
            n as int,
        );
        assert(n as int * SCORE_SCALE == SCORE_SCALE * n as int) by (nonlinear_arith);
        vstd::arithmetic::div_mod::lemma_div_pos_is_pos(sum_of(s@), n as int);
    }
    (acc / (n as u128)) as u64
}

/// How many of the first `t` predictions agree with their label under the
/// decision threshold.
pub open spec fn correct_prefix(preds: Seq<u64>, labels: Seq<bool>, t: int) -> int
    decreases t,
{
    if t <= 0 {
        0
    } else {
        correct_prefix(preds, labels, t - 1) + if spec_label_of(preds[t - 1]) == labels[t - 1] {
            1int
        } else {
            0int
        }
    }
}

/// The number of correct predictions never exceeds the prefix length.
pub proof fn lemma_correct_prefix_bound(preds: Seq<u64>, labels: Seq<bool>, t: int)
    requires
        0 <= t,
    ensures
        0 <= correct_prefix(preds, labels, t) <= t,
    decreases t,
{
    if t > 0 {
        lemma_correct_prefix_bound(preds, labels, t - 1);
    }
}

/// The accuracy of predictions against labels, in micro-units, rounded
/// down: correct count over total count.
pub open spec fn spec_accuracy(preds: Seq<u64>, labels: Seq<bool>) -> int {
    correct_prefix(preds, labels, preds.len() as int) * SCORE_SCALE / (preds.len() as int)
}

/// Score predictions against true labels: each prediction is thresholded
/// at one half and compared with its label; the accuracy is the fraction
/// of agreements, in micro-units. Always a valid score.
pub fn accuracy_micros(preds: &Vec<u64>, labels: &Vec<bool>) -> (a: u64)
    requires
        preds@.len() == labels@.len(),
        preds@.len() > 0,
    ensures
        a == spec_accuracy(preds@, labels@),
        valid_score(a),
{
    let n = preds.len();
    let mut correct: usize = 0;
    let mut i: usize = 0;
    while i < n
        invariant
            i <= n == preds@.len() == labels@.len(),
            correct == correct_prefix(preds@, labels@, i as int),
            correct <= i,
        decreases n - i,
    {
        proof {
            lemma_correct_prefix_bound(preds@, labels@, i as int + 1);
        }
        if label_of(preds[i]) == labels[i] {
            correct += 1;
        }
        i += 1;
    }
    correct_ratio(correct, n)
}

/// The ratio `correct / total` in micro-units, rounded down; valid
/// whenever `correct <= total`.
fn correct_ratio(correct: usize, total: usize) -> (r: u64)
    requires
        correct <= total,
        total > 0,
    ensures
        r == correct as int * SCORE_SCALE / (total as int),
        valid_score(r),
{
    proof {
        vstd::arithmetic::mul::lemma_mul_inequality(
            correct as int,
            total as int,
            SCORE_SCALE as int,
        );
        vstd::arithmetic::div_mod::lemma_div_multiples_vanish(
            SCORE_SCALE as int,
            total as int,
        );
        vstd::arithmetic::div_mod::lemma_div_is_ordered(
            correct as int * SCORE_SCALE,
            total as int * SCORE_SCALE,
            total as int,
        );
        assert(total as int * SCORE_SCALE == SCORE_SCALE * total as int) by (nonlinear_arith);
        vstd::arithmetic::mul::lemma_mul_nonnegative(correct as int, SCORE_SCALE as int);
        vstd::arithmetic::div_mod::lemma_div_pos_is_pos(
            correct as int * SCORE_SCALE,
            total as int,
        );
    }
    ((correct as u128) * (SCORE_SCALE as u128) / (total as u128)) as u64
}

} // verus!
