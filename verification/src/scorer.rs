//! Accuracy: the share of predictions that equal the ground truth,
//! as a fixed-point value in `[0, SCALE]`.
use vstd::prelude::*;

use crate::fixed::SCALE;

verus! {

/// How many of the first `n` prediction/label pairs agree.
pub open spec fn spec_match_count(p: Seq<u8>, l: Seq<u8>, n: int) -> int
    recommends
        0 <= n <= p.len(),
        p.len() == l.len(),
    decreases n,
{
    if n <= 0 {
        0
    } else {
        spec_match_count(p, l, n - 1) + if p[n - 1] == l[n - 1] {
            1int
        } else {
            0int
        }
    }
}

/// The match count lies between zero and `n`, and hits the ends exactly
/// when all pairs (respectively no pair) agree.
pub proof fn lemma_match_count_bounds(p: Seq<u8>, l: Seq<u8>, n: int)
    requires
        0 <= n <= p.len(),
        p.len() == l.len(),
    ensures
        0 <= spec_match_count(p, l, n) <= n,
        (forall|i: int| 0 <= i < n ==> p[i] == l[i]) ==> spec_match_count(p, l, n) == n,
        (forall|i: int| 0 <= i < n ==> p[i] != l[i]) ==> spec_match_count(p, l, n) == 0,
    decreases n,
{
    if n > 0 {
        lemma_match_count_bounds(p, l, n - 1);
    }
}

/// The accuracy a prediction vector earns against the ground truth:
/// `matches * SCALE / total`, truncated.
pub open spec fn spec_accuracy(p: Seq<u8>, l: Seq<u8>) -> int
    recommends
        p.len() == l.len(),
        l.len() > 0,
{
    (spec_match_count(p, l, p.len() as int) * SCALE) / (l.len() as int)
}

/// Compares parallel predictions and labels and returns `correct / total`
/// as a fixed-point value in `[0, SCALE]`.
///
/// Accuracy over nothing is undefined, so an empty input is ruled out
/// here; the pipeline guards the empty test set before calling this.
pub fn compute_accuracy(predictions: &Vec<u8>, labels: &Vec<u8>) -> (r: i64)
    requires
        predictions@.len() == labels@.len(),
        labels@.len() > 0,
    ensures
        r == spec_accuracy(predictions@, labels@),
        0 <= r <= SCALE,
        predictions@ == labels@ ==> r == SCALE,
        (forall|i: int| 0 <= i < labels@.len() ==> predictions@[i] != labels@[i]) ==> r == 0,
{
    let n = labels.len();
    let mut correct: usize = 0;
    for i in 0..n
        invariant
            n == labels@.len() == predictions@.len(),
            correct == spec_match_count(predictions@, labels@, i as int),
            correct <= i,
    {
        proof {
            lemma_match_count_bounds(predictions@, labels@, i + 1);
        }
        if predictions[i] == labels[i] {
            correct = correct + 1;
        }
    }
    proof {
        lemma_match_count_bounds(predictions@, labels@, n as int);
    }
    let acc128: u128 = (correct as u128) * (SCALE as u128) / (n as u128);
    proof {
        let c = spec_match_count(predictions@, labels@, n as int);
        assert(c * SCALE <= n as int * SCALE) by (nonlinear_arith)
            requires
                c <= n as int,
                SCALE >= 0,
        ;
        vstd::arithmetic::div_mod::lemma_div_is_ordered(
            c * SCALE,
            n as int * SCALE,
            n as int,
        );
        vstd::arithmetic::div_mod::lemma_div_by_multiple(SCALE as int, n as int);
        assert(n as int * SCALE == SCALE * n as int) by (nonlinear_arith);
        assert(c * SCALE >= 0) by (nonlinear_arith)
            requires
                c >= 0,
                SCALE >= 0,
        ;
        vstd::arithmetic::div_mod::lemma_div_pos_is_pos(c * SCALE, n as int);
        if predictions@ == labels@ {
            assert(c == n);
        }
    }
    acc128 as i64
}

} // verus!
