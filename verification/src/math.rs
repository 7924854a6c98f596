//! The numeric helpers of the classifier: dot product, the exponential
//! of a non-positive argument, and softmax.
//!
//! Softmax here carries its defining invariant in its contract: every
//! output entry lies in `[0, SCALE]` and the outputs sum to `SCALE` up to
//! one truncation unit per entry.
use vstd::prelude::*;

use crate::fixed::{spec_fx_mul, spec_sat_add, fx_mul, sat_add, SCALE};

verus! {

/// The left-to-right saturating fold that `dot_product` computes, over a
/// prefix of the first `n` pairs.
pub open spec fn spec_dot_prefix(a: Seq<i64>, b: Seq<i64>, n: int) -> int
    recommends
        0 <= n <= a.len(),
        a.len() == b.len(),
    decreases n,
{
    if n <= 0 {
        0
    } else {
        spec_sat_add(spec_dot_prefix(a, b, n - 1), spec_fx_mul(a[n - 1] as int, b[n - 1] as int))
    }
}

/// The fixed-point dot product of two equally long vectors.
pub open spec fn spec_dot(a: Seq<i64>, b: Seq<i64>) -> int
    recommends
        a.len() == b.len(),
{
    spec_dot_prefix(a, b, a.len() as int)
}

/// Dot product of two fixed-point vectors, accumulated left to right
/// with saturating steps.
pub fn dot_product(a: &Vec<i64>, b: &Vec<i64>) -> (r: i64)
    requires
        a@.len() == b@.len(),
    ensures
        r == spec_dot(a@, b@),
{
    let mut acc: i64 = 0;
    let n = a.len();
    for i in 0..n
        invariant
            n == a@.len() == b@.len(),
            acc == spec_dot_prefix(a@, b@, i as int),
    {
        acc = sat_add(acc, fx_mul(a[i], b[i]));
    }
    acc
}

/// One squaring step of the fixed-point exponential.
pub open spec fn spec_sq_step(v: int) -> int {
    (v * v) / (SCALE as int)
}

/// `k` squaring steps applied to `v`.
pub open spec fn spec_sq_iter(v: int, k: nat) -> int
    decreases k,
{
    if k == 0 {
        v
    } else {
        spec_sq_step(spec_sq_iter(v, (k - 1) as nat))
    }
}

/// The fixed-point exponential of a non-positive argument: the limit form
/// `(1 + d / 2^10)^(2^10)`, computed as ten fixed-point squarings.
pub open spec fn spec_exp_neg(d: int) -> int {
    let m = (-d) / 1024;
    if m >= SCALE {
        0
    } else {
        spec_sq_iter(SCALE - m, 10)
    }
}

/// Squaring steps keep a value inside `[0, SCALE]`.
pub proof fn lemma_sq_iter_bounds(v: int, k: nat)
    requires
        0 <= v <= SCALE,
    ensures
        0 <= spec_sq_iter(v, k) <= SCALE,
    decreases k,
{
    if k > 0 {
        lemma_sq_iter_bounds(v, (k - 1) as nat);
        let w = spec_sq_iter(v, (k - 1) as nat);
        assert(0 <= (w * w) / (SCALE as int) <= SCALE) by (nonlinear_arith)
            requires
                0 <= w <= SCALE,
                SCALE == 1_000_000,
        ;
    }
}

/// Squaring steps leave `SCALE` (the value one) unchanged.
pub proof fn lemma_sq_iter_of_one(k: nat)
    ensures
        spec_sq_iter(SCALE as int, k) == SCALE,
    decreases k,
{
    if k > 0 {
        lemma_sq_iter_of_one((k - 1) as nat);
        assert(SCALE as int * SCALE as int == 1_000_000_000_000) by (nonlinear_arith);
        assert(spec_sq_step(SCALE as int) == SCALE);
    }
}

/// The exponential of a non-positive argument lies in `[0, SCALE]`,
/// and the exponential of zero is exactly `SCALE`.
pub proof fn lemma_exp_neg_bounds(d: int)
    requires
        d <= 0,
    ensures
        0 <= spec_exp_neg(d) <= SCALE,
        d == 0 ==> spec_exp_neg(d) == SCALE,
{
    let m = (-d) / 1024;
    vstd::arithmetic::div_mod::lemma_div_pos_is_pos(-d, 1024);
    if m < SCALE {
        lemma_sq_iter_bounds(SCALE - m, 10);
    }
    if d == 0 {
        lemma_sq_iter_of_one(10);
    }
}

/// Fixed-point exponential of a non-positive argument.
pub fn exp_neg(d: i128) -> (r: i64)
    requires
        i128::MIN < d <= 0,
    ensures
        r == spec_exp_neg(d as int),
        0 <= r <= SCALE,
        d == 0 ==> r == SCALE,
{
    proof {
        lemma_exp_neg_bounds(d as int);
        vstd::arithmetic::div_mod::lemma_div_pos_is_pos(-(d as int), 1024);
    }
    let m: i128 = (-d) / 1024;
    if m >= SCALE as i128 {
        return 0;
    }
    let ghost base: int = SCALE - m as int;
    let mut v: u64 = (SCALE as i128 - m) as u64;
    for i in 0..10usize
        invariant
            0 < base <= SCALE,
            base == SCALE - (-(d as int)) / 1024,
            v == spec_sq_iter(base, i as nat),
            0 <= v <= SCALE,
    {
        proof {
            lemma_sq_iter_bounds(base, (i + 1) as nat);
            assert(v as int * v as int <= 1_000_000_000_000) by (nonlinear_arith)
                requires
                    0 <= v as int <= 1_000_000,
            ;
        }
        let w: u128 = (v as u128) * (v as u128) / (SCALE as u128);
        v = w as u64;
    }
    proof {
        lemma_sq_iter_bounds(base, 10);
    }
    v as i64
}

/// The largest entry of a non-empty vector of scores.
pub open spec fn spec_max(s: Seq<i64>) -> int
    recommends
        s.len() > 0,
    decreases s.len(),
{
    if s.len() <= 1 {
        s[0] as int
    } else {
        let m = spec_max(s.drop_last());
        if s.last() > m {
            s.last() as int
        } else {
            m
        }
    }
}

/// Every entry is at most the maximum, and the maximum is attained;
/// the proof hands back an index that attains it.
pub proof fn lemma_max_witness(s: Seq<i64>) -> (w: int)
    requires
        s.len() > 0,
    ensures
        0 <= w < s.len(),
        s[w] == spec_max(s),
        forall|i: int| 0 <= i < s.len() ==> s[i] <= spec_max(s),
    decreases s.len(),
{
    if s.len() == 1 {
        0
    } else {
        let w0 = lemma_max_witness(s.drop_last());
        assert(s.drop_last()[w0] == s[w0]);
        assert forall|i: int| 0 <= i < s.len() implies s[i] <= spec_max(s) by {
            if i < s.len() - 1 {
                assert(s.drop_last()[i] == s[i]);
            }
        }
        if s.last() > spec_max(s.drop_last()) {
            s.len() - 1
        } else {
            w0
        }
    }
}

/// One softmax output: the exponential of the max-shifted score,
/// normalised by the sum of all the exponentials.
pub open spec fn spec_softmax_at(s: Seq<i64>, i: int) -> int
    recommends
        s.len() > 0,
        0 <= i < s.len(),
{
    let m = spec_max(s);
    (spec_exp_neg(s[i] - m) * SCALE) / spec_exp_sum(s, m, s.len() as int)
}

/// Sum of the exponentials of the max-shifted scores over the first `n`
/// entries.
pub open spec fn spec_exp_sum(s: Seq<i64>, m: int, n: int) -> int
    recommends
        0 <= n <= s.len(),
    decreases n,
{
    if n <= 0 {
        0
    } else {
        spec_exp_sum(s, m, n - 1) + spec_exp_neg(s[n - 1] - m)
    }
}

/// The sum of exponentials dominates each of its terms and stays
/// between zero and `n * SCALE`.
pub proof fn lemma_exp_sum_bounds(s: Seq<i64>, m: int, n: int)
    requires
        0 <= n <= s.len(),
        forall|i: int| 0 <= i < s.len() ==> s[i] <= m,
    ensures
        0 <= spec_exp_sum(s, m, n) <= n * SCALE,
        forall|i: int|
            0 <= i < n ==> #[trigger] spec_exp_neg(s[i] - m) <= spec_exp_sum(s, m, n),
    decreases n,
{
    if n > 0 {
        lemma_exp_sum_bounds(s, m, n - 1);
        lemma_exp_neg_bounds(s[n - 1] - m);
        assert((n - 1) * SCALE + SCALE == n * SCALE) by (nonlinear_arith);
        assert forall|i: int| 0 <= i < n implies spec_exp_neg(s[i] - m)
            <= spec_exp_sum(s, m, n) by {
            if i < n - 1 {
                lemma_exp_neg_bounds(s[n - 1] - m);
            } else {
                lemma_exp_sum_bounds(s, m, n - 1);
            }
        }
    }
}

/// The sum of a vector of fixed-point values, as unbounded integers.
pub open spec fn spec_sum(q: Seq<i64>) -> int
    decreases q.len(),
{
    if q.len() == 0 {
        0
    } else {
        spec_sum(q.drop_last()) + q.last()
    }
}

/// Softmax: maps scores to a probability distribution.
///
/// Each output entry is the max-shifted fixed-point exponential of its
/// score, normalised by the sum of all such exponentials; so every entry
/// lies in `[0, SCALE]`, and the entries sum to `SCALE` up to one
/// truncation unit per entry.
pub fn softmax(scores: &Vec<i64>) -> (r: Vec<i64>)
    requires
        scores@.len() > 0,
    ensures
        r@.len() == scores@.len(),
        forall|i: int| 0 <= i < r@.len() ==> #[trigger] r@[i] == spec_softmax_at(scores@, i),
        forall|i: int| 0 <= i < r@.len() ==> 0 <= #[trigger] r@[i] <= SCALE,
        SCALE - scores@.len() <= spec_sum(r@) <= SCALE,
{
    let n = scores.len();
    let ghost gm = spec_max(scores@);
    proof {
        lemma_max_witness(scores@);
    }

    // Maximum score, for the shift.
    let mut mx: i64 = scores[0];
    for i in 1..n
        invariant
            n == scores@.len(),
            1 <= i <= n,
            mx == spec_max(scores@.take(i as int)),
    {
        proof {
            assert(scores@.take(i + 1).drop_last() =~= scores@.take(i as int));
            assert(scores@.take(i + 1).last() == scores@[i as int]);
        }
        if scores[i] > mx {
            mx = scores[i];
        }
    }
    proof {
        assert(scores@.take(n as int) =~= scores@);
    }

    // Exponentials of the shifted scores, and their sum.
    let mut exps: Vec<i64> = Vec::new();
    let mut sum: u128 = 0;
    for i in 0..n
        invariant
            n == scores@.len(),
            mx == gm,
            forall|k: int| 0 <= k < n ==> scores@[k] <= gm,
            exps@.len() == i,
            forall|k: int|
                0 <= k < i ==> #[trigger] exps@[k] == spec_exp_neg(scores@[k] - gm),
            forall|k: int| 0 <= k < i ==> 0 <= #[trigger] exps@[k] <= SCALE,
            sum == spec_exp_sum(scores@, gm, i as int),
            sum <= (i as int) * SCALE,
    {
        let d: i128 = (scores[i] as i128) - (mx as i128);
        let e = exp_neg(d);
        proof {
            lemma_exp_neg_bounds(d as int);
            assert((i as int) * SCALE + SCALE == (i + 1) as int * SCALE) by (nonlinear_arith);
        }
        exps.push(e);
        sum = sum + (e as u128);
    }
    let ghost gs = spec_exp_sum(scores@, gm, n as int);

    // The maximal score contributes exactly SCALE, so the sum is positive.
    proof {
        lemma_exp_sum_bounds(scores@, gm, n as int);
        let j = lemma_max_witness(scores@);
        lemma_exp_neg_bounds(scores@[j] - gm);
        assert(spec_exp_neg(scores@[j] - gm) == SCALE);
        assert(gs >= SCALE);
    }

    // Normalise.
    let mut r: Vec<i64> = Vec::new();
    let ghost mut psum: int = 0;
    for i in 0..n
        invariant
            n == scores@.len() == exps@.len(),
            mx == gm,
            gm == spec_max(scores@),
            sum == gs,
            gs == spec_exp_sum(scores@, gm, n as int),
            gs >= SCALE,
            forall|k: int| 0 <= k < n ==> scores@[k] <= gm,
            forall|k: int|
                0 <= k < n ==> #[trigger] exps@[k] == spec_exp_neg(scores@[k] - gm),
            forall|k: int| 0 <= k < n ==> 0 <= #[trigger] exps@[k] <= SCALE,
            r@.len() == i,
            forall|k: int| 0 <= k < i ==> #[trigger] r@[k] == spec_softmax_at(scores@, k),
            forall|k: int| 0 <= k < i ==> 0 <= #[trigger] r@[k] <= SCALE,
            psum == spec_sum(r@),
            gs * psum <= SCALE * spec_exp_sum(scores@, gm, i as int),
            SCALE * spec_exp_sum(scores@, gm, i as int) <= gs * psum + (i as int) * gs,
    {
        let e = exps[i];
        let p128: u128 = (e as u128) * (SCALE as u128) / sum;
        proof {
            lemma_exp_sum_bounds(scores@, gm, n as int);
            assert(spec_exp_neg(scores@[i as int] - gm) <= gs);
            // p = floor(e * SCALE / gs) and e <= gs, so p <= SCALE.
            vstd::arithmetic::div_mod::lemma_fundamental_div_mod(
                e as int * SCALE,
                gs,
            );
            assert(e as int * SCALE <= gs * SCALE) by (nonlinear_arith)
                requires
                    e as int <= gs,
                    SCALE >= 0,
            ;
            vstd::arithmetic::div_mod::lemma_div_is_ordered(
                e as int * SCALE,
                gs * SCALE,
                gs,
            );
            vstd::arithmetic::div_mod::lemma_div_by_multiple(SCALE as int, gs);
            assert(gs * SCALE == SCALE * gs) by (nonlinear_arith);
            assert((e as int * SCALE) / gs <= SCALE);
            assert(e as int == spec_exp_neg(scores@[i as int] - gm));
            assert(p128 as int == (spec_exp_neg(scores@[i as int] - gm) * SCALE as int) / gs);
            assert(p128 <= SCALE);
        }
        let p: i64 = p128 as i64;
        proof {
            assert(p as int == p128 as int);
            assert(p == spec_softmax_at(scores@, i as int));
        }
        let ghost opsum = psum;
        let ghost oesum = spec_exp_sum(scores@, gm, i as int);
        let ghost orseq = r@;
        r.push(p);
        proof {
            psum = psum + p;
            assert(r@.drop_last() =~= orseq);
            // Relate the partial sums: gs*p <= e*SCALE < gs*p + gs.
            assert(gs * (opsum + p) == gs * opsum + gs * p) by (nonlinear_arith);
            assert(SCALE * (oesum + spec_exp_neg(scores@[i as int] - gm))
                == SCALE * oesum + SCALE * spec_exp_neg(scores@[i as int] - gm))
                by (nonlinear_arith);
            assert(SCALE * spec_exp_neg(scores@[i as int] - gm)
                == spec_exp_neg(scores@[i as int] - gm) * SCALE) by (nonlinear_arith);
            assert((i as int + 1) * gs == (i as int) * gs + gs) by (nonlinear_arith);
        }
    }
    proof {
        // At the end the partial exponential sum is the whole of it, and
        // the two products divide out to the stated bounds.
        assert(gs * psum <= SCALE * gs ==> psum <= SCALE) by (nonlinear_arith)
            requires
                gs >= SCALE > 0,
        ;
        assert(SCALE * gs <= gs * psum + (n as int) * gs ==> SCALE <= psum + n)
            by (nonlinear_arith)
            requires
                gs > 0,
        ;
        assert(SCALE * spec_exp_sum(scores@, gm, n as int) == SCALE * gs);
    }
    r
}

} // verus!
