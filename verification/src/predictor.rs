//! Prediction: per-class scores, softmax, and a stable arg-max.
//!
//! Ties in the probability vector resolve to the lowest class index: the
//! contract of `argmax` states that every entry before the chosen one is
//! strictly smaller.
use vstd::prelude::*;

use crate::math::{spec_softmax_at, softmax};
use crate::trainer::{spec_scores, view2, compute_scores};

verus! {

/// The stable arg-max over the first `n` entries: the lowest index
/// holding the largest value seen in a left-to-right scan.
pub open spec fn spec_argmax_prefix(p: Seq<i64>, n: int) -> int
    recommends
        0 < n <= p.len(),
    decreases n,
{
    if n <= 1 {
        0
    } else {
        let b = spec_argmax_prefix(p, n - 1);
        if p[n - 1] > p[b] {
            n - 1
        } else {
            b
        }
    }
}

/// The stable arg-max of a non-empty vector.
pub open spec fn spec_argmax(p: Seq<i64>) -> int
    recommends
        p.len() > 0,
{
    spec_argmax_prefix(p, p.len() as int)
}

/// The stable arg-max holds the maximum, and every earlier entry is
/// strictly smaller — ties resolve to the lowest index.
pub proof fn lemma_argmax_prefix_properties(p: Seq<i64>, n: int)
    requires
        0 < n <= p.len(),
    ensures
        0 <= spec_argmax_prefix(p, n) < n,
        forall|i: int| 0 <= i < n ==> #[trigger] p[i] <= p[spec_argmax_prefix(p, n)],
        forall|i: int| 0 <= i < spec_argmax_prefix(p, n) ==> #[trigger] p[i] < p[spec_argmax_prefix(p, n)],
    decreases n,
{
    if n > 1 {
        lemma_argmax_prefix_properties(p, n - 1);
    }
}

/// The stable arg-max holds the maximum, and every earlier entry is
/// strictly smaller — ties resolve to the lowest class index.
pub proof fn lemma_argmax_properties(p: Seq<i64>)
    requires
        p.len() > 0,
    ensures
        0 <= spec_argmax(p) < p.len(),
        forall|i: int| 0 <= i < p.len() ==> #[trigger] p[i] <= p[spec_argmax(p)],
        forall|i: int| 0 <= i < spec_argmax(p) ==> #[trigger] p[i] < p[spec_argmax(p)],
{
    lemma_argmax_prefix_properties(p, p.len() as int);
}

/// Stable arg-max of a non-empty vector: the lowest index attaining the
/// maximum.
pub fn argmax(p: &Vec<i64>) -> (r: usize)
    requires
        p@.len() > 0,
    ensures
        r == spec_argmax(p@),
        r < p@.len(),
        forall|i: int| 0 <= i < p@.len() ==> #[trigger] p@[i] <= p@[r as int],
        forall|i: int| 0 <= i < r ==> #[trigger] p@[i] < p@[r as int],
{
    let n = p.len();
    let mut best: usize = 0;
    for i in 1..n
        invariant
            n == p@.len(),
            0 < i <= n,
            best < i,
            best == spec_argmax_prefix(p@, i as int),
    {
        if p[i] > p[best] {
            best = i;
        }
    }
    proof {
        lemma_argmax_properties(p@);
    }
    best
}

/// One softmax output row, as a vector of fixed-point probabilities.
pub open spec fn spec_probs_seq(s: Seq<i64>) -> Seq<i64> {
    Seq::new(s.len(), |i: int| spec_softmax_at(s, i) as i64)
}

/// The class predicted for one feature row: the stable arg-max of the
/// softmax probabilities of the per-class linear scores.
pub open spec fn spec_predict_row(x: Seq<i64>, w: Seq<Seq<i64>>, b: Seq<i64>) -> int {
    spec_argmax(spec_probs_seq(spec_scores(x, w, b)))
}

/// Predicts one class index per feature row under a trained model.
pub fn predict(features: &Vec<Vec<i64>>, weights: &Vec<Vec<i64>>, biases: &Vec<i64>) -> (r: Vec<
    u8,
>)
    requires
        0 < biases@.len() <= 255,
        weights@.len() == biases@.len(),
        forall|k: int| 0 <= k < weights@.len() ==> #[trigger] weights@[k]@.len()
            == features@[0]@.len(),
        forall|i: int|
            0 <= i < features@.len() ==> #[trigger] features@[i]@.len() == features@[0]@.len(),
    ensures
        r@.len() == features@.len(),
        forall|i: int|
            0 <= i < features@.len() ==> #[trigger] r@[i] as int == spec_predict_row(
                view2(features@)[i],
                view2(weights@),
                biases@,
            ),
{
    let n = features.len();
    let mut r: Vec<u8> = Vec::new();
    for i in 0..n
        invariant
            n == features@.len(),
            0 < biases@.len() <= 255,
            weights@.len() == biases@.len(),
            forall|k: int| 0 <= k < weights@.len() ==> #[trigger] weights@[k]@.len()
                == features@[0]@.len(),
            forall|t: int|
                0 <= t < n ==> #[trigger] features@[t]@.len() == features@[0]@.len(),
            r@.len() == i,
            forall|t: int|
                0 <= t < i ==> #[trigger] r@[t] as int == spec_predict_row(
                    view2(features@)[t],
                    view2(weights@),
                    biases@,
                ),
    {
        let x = &features[i];
        let scores = compute_scores(x, weights, biases);
        let probs = softmax(&scores);
        proof {
            assert(probs@ =~= spec_probs_seq(scores@));
            assert(view2(features@)[i as int] == x@);
        }
        let cls = argmax(&probs);
        r.push(cls as u8);
    }
    r
}

} // verus!
