//! Multinomial logistic regression trained by full-batch gradient descent.
//!
//! The whole training loop is a mathematical recurrence over fixed-point
//! matrices: `spec_train` says exactly what `logistic_regression` returns,
//! epoch by epoch, sample by sample.  Weights and biases start at zero;
//! each epoch accumulates the softmax cross-entropy gradient over every
//! training row and then applies the averaged update.
use vstd::prelude::*;

use crate::fixed::{spec_fx_mul, spec_sat_add, spec_sat_sub, tdiv, div_n, fx_mul, sat_add, sat_sub, SCALE};
use crate::math::{spec_dot, spec_softmax_at, dot_product, softmax};

verus! {

/// Number of classes the classifier distinguishes.
pub const NUM_CLASSES: usize = 3;

/// The matrix a vector of rows stands for.
pub open spec fn view2(m: Seq<Vec<i64>>) -> Seq<Seq<i64>> {
    Seq::new(m.len(), |i: int| m[i]@)
}

/// A zero vector of length `c`.
pub open spec fn zeros(c: int) -> Seq<i64> {
    Seq::new(c as nat, |j: int| 0i64)
}

/// A zero matrix with `r` rows and `c` columns.
pub open spec fn zeros2(r: int, c: int) -> Seq<Seq<i64>> {
    Seq::new(r as nat, |k: int| zeros(c))
}

/// Per-class linear scores of one row: `dot(x, w[k]) + b[k]`.
pub open spec fn spec_scores(x: Seq<i64>, w: Seq<Seq<i64>>, b: Seq<i64>) -> Seq<i64> {
    Seq::new(b.len(), |k: int| spec_sat_add(spec_dot(x, w[k]), b[k] as int) as i64)
}

/// The cross-entropy gradient signal of class `k` on one row: the softmax
/// probability, less one (scaled) when `k` is the true class.
pub open spec fn spec_err(s: Seq<i64>, y: u8, k: int) -> int {
    spec_softmax_at(s, k) - if y as int == k {
        SCALE as int
    } else {
        0
    }
}

/// Folds one training row into the accumulated gradient `g = (dw, db)`.
pub open spec fn spec_grad_step(
    g: (Seq<Seq<i64>>, Seq<i64>),
    x: Seq<i64>,
    y: u8,
    w: Seq<Seq<i64>>,
    b: Seq<i64>,
) -> (Seq<Seq<i64>>, Seq<i64>) {
    let s = spec_scores(x, w, b);
    (
        Seq::new(
            g.0.len(),
            |k: int|
                Seq::new(
                    g.0[k].len(),
                    |j: int|
                        spec_sat_add(
                            g.0[k][j] as int,
                            spec_fx_mul(spec_err(s, y, k), x[j] as int),
                        ) as i64,
                ),
        ),
        Seq::new(g.1.len(), |k: int| spec_sat_add(g.1[k] as int, spec_err(s, y, k)) as i64),
    )
}

/// The gradient accumulated over the first `i` training rows.
pub open spec fn spec_grad(
    xs: Seq<Seq<i64>>,
    ys: Seq<u8>,
    w: Seq<Seq<i64>>,
    b: Seq<i64>,
    nf: int,
    i: int,
) -> (Seq<Seq<i64>>, Seq<i64>)
    decreases i,
{
    if i <= 0 {
        (zeros2(w.len() as int, nf), zeros(b.len() as int))
    } else {
        spec_grad_step(spec_grad(xs, ys, w, b, nf, i - 1), xs[i - 1], ys[i - 1], w, b)
    }
}

/// One parameter update: subtract the learning-rate-scaled gradient,
/// averaged over the `n` training rows.
pub open spec fn spec_update(
    w: Seq<Seq<i64>>,
    b: Seq<i64>,
    g: (Seq<Seq<i64>>, Seq<i64>),
    lr: i64,
    n: int,
) -> (Seq<Seq<i64>>, Seq<i64>) {
    (
        Seq::new(
            w.len(),
            |k: int|
                Seq::new(
                    w[k].len(),
                    |j: int|
                        spec_sat_sub(
                            w[k][j] as int,
                            tdiv(spec_fx_mul(lr as int, g.0[k][j] as int), n),
                        ) as i64,
                ),
        ),
        Seq::new(
            b.len(),
            |k: int|
                spec_sat_sub(b[k] as int, tdiv(spec_fx_mul(lr as int, g.1[k] as int), n)) as i64,
        ),
    )
}

/// One full-batch epoch from parameters `(w, b)`.
pub open spec fn spec_epoch(
    xs: Seq<Seq<i64>>,
    ys: Seq<u8>,
    w: Seq<Seq<i64>>,
    b: Seq<i64>,
    lr: i64,
    nf: int,
) -> (Seq<Seq<i64>>, Seq<i64>) {
    spec_update(w, b, spec_grad(xs, ys, w, b, nf, xs.len() as int), lr, xs.len() as int)
}

/// The parameters after `e` epochs of full-batch gradient descent from
/// the all-zero start.
pub open spec fn spec_train(xs: Seq<Seq<i64>>, ys: Seq<u8>, lr: i64, nf: int, e: nat) -> (
    Seq<Seq<i64>>,
    Seq<i64>,
)
    decreases e,
{
    if e == 0 {
        (zeros2(NUM_CLASSES as int, nf), zeros(NUM_CLASSES as int))
    } else {
        let p = spec_train(xs, ys, lr, nf, (e - 1) as nat);
        spec_epoch(xs, ys, p.0, p.1, lr, nf)
    }
}

/// A zero-filled vector.
pub fn zero_vec(c: usize) -> (r: Vec<i64>)
    ensures
        r@ == zeros(c as int),
{
    let mut r: Vec<i64> = Vec::new();
    for j in 0..c
        invariant
            r@.len() == j,
            forall|t: int| 0 <= t < j ==> r@[t] == 0i64,
    {
        r.push(0);
    }
    proof {
        assert(r@ =~= zeros(c as int));
    }
    r
}

/// A zero-filled matrix.
pub fn zero_matrix(rows: usize, cols: usize) -> (r: Vec<Vec<i64>>)
    ensures
        view2(r@) == zeros2(rows as int, cols as int),
        r@.len() == rows,
        forall|k: int| 0 <= k < rows ==> #[trigger] r@[k]@.len() == cols,
{
    let mut r: Vec<Vec<i64>> = Vec::new();
    for k in 0..rows
        invariant
            r@.len() == k,
            forall|t: int| 0 <= t < k ==> #[trigger] r@[t]@ == zeros(cols as int),
    {
        r.push(zero_vec(cols));
    }
    proof {
        assert(view2(r@) =~= zeros2(rows as int, cols as int));
        assert(forall|k: int|
            0 <= k < rows ==> #[trigger] r@[k]@.len() == cols) by {
            assert(forall|k: int| 0 <= k < rows ==> r@[k]@ == zeros(cols as int));
        }
    }
    r
}

/// Per-class linear scores of one feature row under the given parameters.
pub fn compute_scores(x: &Vec<i64>, w: &Vec<Vec<i64>>, b: &Vec<i64>) -> (r: Vec<i64>)
    requires
        w@.len() == b@.len(),
        forall|k: int| 0 <= k < w@.len() ==> #[trigger] w@[k]@.len() == x@.len(),
    ensures
        r@ == spec_scores(x@, view2(w@), b@),
        r@.len() == b@.len(),
{
    let nc = b.len();
    let mut r: Vec<i64> = Vec::new();
    for k in 0..nc
        invariant
            nc == b@.len() == w@.len(),
            forall|t: int| 0 <= t < nc ==> #[trigger] w@[t]@.len() == x@.len(),
            r@.len() == k,
            forall|t: int|
                0 <= t < k ==> #[trigger] r@[t] == spec_scores(x@, view2(w@), b@)[t],
    {
        r.push(sat_add(dot_product(x, &w[k]), b[k]));
    }
    proof {
        assert(r@ =~= spec_scores(x@, view2(w@), b@));
    }
    r
}

/// The gradient of the cross-entropy loss accumulated over every
/// training row, under fixed parameters.
pub fn grad_pass(
    features: &Vec<Vec<i64>>,
    labels: &Vec<u8>,
    w: &Vec<Vec<i64>>,
    b: &Vec<i64>,
) -> (r: (Vec<Vec<i64>>, Vec<i64>))
    requires
        features@.len() > 0,
        features@.len() == labels@.len(),
        w@.len() == b@.len(),
        b@.len() > 0,
        forall|i: int|
            0 <= i < features@.len() ==> #[trigger] features@[i]@.len() == features@[0]@.len(),
        forall|k: int| 0 <= k < w@.len() ==> #[trigger] w@[k]@.len() == features@[0]@.len(),
    ensures
        view2(r.0@) == spec_grad(
            view2(features@),
            labels@,
            view2(w@),
            b@,
            features@[0]@.len() as int,
            features@.len() as int,
        ).0,
        r.1@ == spec_grad(
            view2(features@),
            labels@,
            view2(w@),
            b@,
            features@[0]@.len() as int,
            features@.len() as int,
        ).1,
        r.0@.len() == w@.len(),
        r.1@.len() == b@.len(),
        forall|k: int| 0 <= k < r.0@.len() ==> #[trigger] r.0@[k]@.len() == features@[0]@.len(),
{
    let n = features.len();
    let nc = b.len();
    let nf = features[0].len();
    let ghost gnf: int = features@[0]@.len() as int;
    let ghost gxs = view2(features@);
    let ghost gw = view2(w@);

    let mut dw: Vec<Vec<i64>> = zero_matrix(nc, nf);
    let mut db: Vec<i64> = zero_vec(nc);
    proof {
        assert(view2(dw@) == spec_grad(gxs, labels@, gw, b@, gnf, 0).0);
        assert(db@ == spec_grad(gxs, labels@, gw, b@, gnf, 0).1);
    }
    for i in 0..n
        invariant
            n == features@.len() == labels@.len(),
            nc == b@.len() == w@.len(),
            nc > 0,
            n > 0,
            nf == gnf,
            gnf == features@[0]@.len(),
            gxs == view2(features@),
            gw == view2(w@),
            forall|t: int| 0 <= t < n ==> #[trigger] features@[t]@.len() == gnf,
            forall|k: int| 0 <= k < nc ==> #[trigger] w@[k]@.len() == gnf,
            dw@.len() == nc,
            forall|k: int| 0 <= k < nc ==> #[trigger] dw@[k]@.len() == nf,
            db@.len() == nc,
            view2(dw@) == spec_grad(gxs, labels@, gw, b@, gnf, i as int).0,
            db@ == spec_grad(gxs, labels@, gw, b@, gnf, i as int).1,
    {
        let ghost g_prev = spec_grad(gxs, labels@, gw, b@, gnf, i as int);
        let ghost g_next = spec_grad(gxs, labels@, gw, b@, gnf, i as int + 1);
        proof {
            assert(g_next == spec_grad_step(g_prev, gxs[i as int], labels@[i as int], gw, b@));
        }
        let x = &features[i];
        let scores = compute_scores(x, w, b);
        proof {
            assert(gxs[i as int] == x@);
            assert(scores@ == spec_scores(gxs[i as int], gw, b@));
        }
        let probs = softmax(&scores);
        let y = labels[i];

        let mut ndw: Vec<Vec<i64>> = Vec::new();
        let mut ndb: Vec<i64> = Vec::new();
        for k in 0..nc
            invariant
                n == features@.len() == labels@.len(),
                nc == b@.len() == w@.len(),
                0 <= i < n,
                gnf == features@[0]@.len(),
                gxs == view2(features@),
                gw == view2(w@),
                forall|t: int| 0 <= t < n ==> #[trigger] features@[t]@.len() == gnf,
                nf == gnf,
                dw@.len() == nc,
                forall|t: int| 0 <= t < nc ==> #[trigger] dw@[t]@.len() == nf,
                db@.len() == nc,
                view2(dw@) == g_prev.0,
                db@ == g_prev.1,
                g_next == spec_grad_step(g_prev, gxs[i as int], labels@[i as int], gw, b@),
                y == labels@[i as int],
                x@ == gxs[i as int],
                scores@ == spec_scores(gxs[i as int], gw, b@),
                scores@.len() == nc,
                probs@.len() == nc,
                forall|t: int|
                    0 <= t < nc ==> #[trigger] probs@[t] == spec_softmax_at(scores@, t),
                forall|t: int| 0 <= t < nc ==> 0 <= #[trigger] probs@[t] <= SCALE,
                ndw@.len() == k,
                ndb@.len() == k,
                forall|t: int| 0 <= t < k ==> #[trigger] ndw@[t]@ == g_next.0[t],
                forall|t: int| 0 <= t < k ==> #[trigger] ndb@[t] == g_next.1[t],
        {
            let err: i64 = if (y as usize) == k {
                probs[k] - SCALE
            } else {
                probs[k]
            };
            proof {
                assert(err as int == spec_err(scores@, y, k as int));
            }
            let mut nrow: Vec<i64> = Vec::new();
            for j in 0..nf
                invariant
                    0 <= i < n,
                    0 <= k < nc,
                    n == features@.len(),
                    gxs == view2(features@),
                    forall|t: int| 0 <= t < n ==> #[trigger] features@[t]@.len() == gnf,
                    nf == gnf,
                    dw@.len() == nc,
                    forall|t: int| 0 <= t < nc ==> #[trigger] dw@[t]@.len() == nf,
                    view2(dw@) == g_prev.0,
                    x@ == gxs[i as int],
                    err as int == spec_err(spec_scores(gxs[i as int], gw, b@), y, k as int),
                    g_next == spec_grad_step(g_prev, gxs[i as int], labels@[i as int], gw, b@),
                    y == labels@[i as int],
                    nrow@.len() == j,
                    forall|t: int| 0 <= t < j ==> #[trigger] nrow@[t] == g_next.0[k as int][t],
            {
                proof {
                    assert(dw@[k as int]@ == g_prev.0[k as int]);
                    assert(x@[j as int] == gxs[i as int][j as int]);
                }
                nrow.push(sat_add(dw[k][j], fx_mul(err, x[j])));
            }
            proof {
                assert(nrow@ =~= g_next.0[k as int]);
                assert(db@[k as int] == g_prev.1[k as int]);
            }
            ndw.push(nrow);
            ndb.push(sat_add(db[k], err));
        }
        proof {
            assert(view2(ndw@) =~= g_next.0);
            assert(ndb@ =~= g_next.1);
        }
        dw = ndw;
        db = ndb;
        proof {
            assert(forall|t: int|
                0 <= t < nc ==> #[trigger] dw@[t]@.len() == nf) by {
                assert(forall|t: int| 0 <= t < nc ==> dw@[t]@ == g_next.0[t]);
            }
        }
    }
    (dw, db)
}

/// Applies one averaged gradient-descent update to the parameters.
pub fn apply_update(
    w: &Vec<Vec<i64>>,
    b: &Vec<i64>,
    dw: &Vec<Vec<i64>>,
    db: &Vec<i64>,
    learning_rate: i64,
    n: usize,
) -> (r: (Vec<Vec<i64>>, Vec<i64>))
    requires
        0 < n <= i64::MAX,
        w@.len() == b@.len() == dw@.len() == db@.len(),
        forall|k: int| 0 <= k < w@.len() ==> #[trigger] w@[k]@.len() == dw@[k]@.len(),
    ensures
        view2(r.0@) == spec_update(
            view2(w@),
            b@,
            (view2(dw@), db@),
            learning_rate,
            n as int,
        ).0,
        r.1@ == spec_update(view2(w@), b@, (view2(dw@), db@), learning_rate, n as int).1,
        r.0@.len() == w@.len(),
        r.1@.len() == b@.len(),
        forall|k: int| 0 <= k < r.0@.len() ==> #[trigger] r.0@[k]@.len() == w@[k]@.len(),
{
    let nc = b.len();
    let ghost goal = spec_update(view2(w@), b@, (view2(dw@), db@), learning_rate, n as int);
    let mut nw: Vec<Vec<i64>> = Vec::new();
    let mut nb: Vec<i64> = Vec::new();
    for k in 0..nc
        invariant
            nc == w@.len() == b@.len() == dw@.len() == db@.len(),
            0 < n <= i64::MAX,
            forall|t: int| 0 <= t < nc ==> #[trigger] w@[t]@.len() == dw@[t]@.len(),
            goal == spec_update(view2(w@), b@, (view2(dw@), db@), learning_rate, n as int),
            nw@.len() == k,
            nb@.len() == k,
            forall|t: int| 0 <= t < k ==> #[trigger] nw@[t]@ == goal.0[t],
            forall|t: int| 0 <= t < k ==> #[trigger] nb@[t] == goal.1[t],
            forall|t: int| 0 <= t < k ==> #[trigger] nw@[t]@.len() == w@[t]@.len(),
    {
        let cols = w[k].len();
        let mut nrow: Vec<i64> = Vec::new();
        for j in 0..cols
            invariant
                0 <= k < nc,
                nc == w@.len() == dw@.len(),
                0 < n <= i64::MAX,
                cols == w@[k as int]@.len() == dw@[k as int]@.len(),
                goal == spec_update(view2(w@), b@, (view2(dw@), db@), learning_rate, n as int),
                nrow@.len() == j,
                forall|t: int| 0 <= t < j ==> #[trigger] nrow@[t] == goal.0[k as int][t],
        {
            nrow.push(sat_sub(w[k][j], div_n(fx_mul(learning_rate, dw[k][j]), n)));
        }
        proof {
            assert(nrow@ =~= goal.0[k as int]);
        }
        nw.push(nrow);
        nb.push(sat_sub(b[k], div_n(fx_mul(learning_rate, db[k]), n)));
    }
    proof {
        assert(view2(nw@) =~= goal.0);
        assert(nb@ =~= goal.1);
    }
    (nw, nb)
}

/// Trains the multinomial logistic regression model: `epochs` full-batch
/// gradient-descent epochs from the all-zero parameters, at the given
/// fixed-point learning rate.  Returns `(weights, biases)`.
pub fn logistic_regression(
    features: &Vec<Vec<i64>>,
    labels: &Vec<u8>,
    learning_rate: i64,
    epochs: usize,
) -> (r: (Vec<Vec<i64>>, Vec<i64>))
    requires
        0 < features@.len() <= i64::MAX,
        features@.len() == labels@.len(),
        learning_rate > 0,
        forall|i: int|
            0 <= i < features@.len() ==> #[trigger] features@[i]@.len() == features@[0]@.len(),
    ensures
        view2(r.0@) == spec_train(
            view2(features@),
            labels@,
            learning_rate,
            features@[0]@.len() as int,
            epochs as nat,
        ).0,
        r.1@ == spec_train(
            view2(features@),
            labels@,
            learning_rate,
            features@[0]@.len() as int,
            epochs as nat,
        ).1,
        r.0@.len() == NUM_CLASSES,
        r.1@.len() == NUM_CLASSES,
        forall|k: int| 0 <= k < NUM_CLASSES ==> #[trigger] r.0@[k]@.len() == features@[0]@.len(),
{
    let n = features.len();
    let nf = features[0].len();
    let ghost gxs = view2(features@);
    let ghost gnf: int = features@[0]@.len() as int;
    let mut w: Vec<Vec<i64>> = zero_matrix(NUM_CLASSES, nf);
    let mut b: Vec<i64> = zero_vec(NUM_CLASSES);
    proof {
        assert(view2(w@) == spec_train(gxs, labels@, learning_rate, gnf, 0).0);
        assert(b@ == spec_train(gxs, labels@, learning_rate, gnf, 0).1);
    }
    for e in 0..epochs
        invariant
            n == features@.len() == labels@.len(),
            0 < n <= i64::MAX,
            nf == gnf,
            gnf == features@[0]@.len(),
            gxs == view2(features@),
            forall|t: int| 0 <= t < n ==> #[trigger] features@[t]@.len() == gnf,
            w@.len() == NUM_CLASSES,
            b@.len() == NUM_CLASSES,
            forall|k: int| 0 <= k < NUM_CLASSES ==> #[trigger] w@[k]@.len() == nf,
            view2(w@) == spec_train(gxs, labels@, learning_rate, gnf, e as nat).0,
            b@ == spec_train(gxs, labels@, learning_rate, gnf, e as nat).1,
    {
        let g = grad_pass(features, labels, &w, &b);
        let ghost gg = spec_grad(gxs, labels@, view2(w@), b@, gnf, n as int);
        let nwb = apply_update(&w, &b, &g.0, &g.1, learning_rate, n);
        proof {
            assert((view2(g.0@), g.1@) == gg);
            assert(spec_train(gxs, labels@, learning_rate, gnf, (e + 1) as nat)
                == spec_epoch(gxs, labels@, view2(w@), b@, learning_rate, gnf));
            assert(view2(nwb.0@) == spec_update(view2(w@), b@, gg, learning_rate, n as int).0);
        }
        w = nwb.0;
        b = nwb.1;
    }
    (w, b)
}

} // verus!
