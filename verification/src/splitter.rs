//! The train/test split: a random permutation of the row indices, cut at
//! `floor(n * ratio)`.
//!
//! The permutation comes from the outside random generator and is only
//! known to hold each index exactly once; everything after that cut is
//! proved for every permutation, and `lemma_split_partition` states the
//! partition law: the two halves are disjoint and together cover
//! `{0, …, n-1}`.
use vstd::prelude::*;

use vstd::seq_lib::lemma_multiset_commutative;

use crate::fixed::SCALE;
use crate::trainer::view2;

verus! {

/// The identity index sequence `0, 1, …, n-1`.
pub open spec fn spec_iota(n: int) -> Seq<usize> {
    Seq::new(n as nat, |i: int| i as usize)
}

/// Relies on rand::seq::SliceRandom::shuffle (a Fisher-Yates pass of
/// in-place swaps driven by rand::thread_rng): the vector afterwards
/// holds exactly the elements it held before, in some order.
#[verifier::external_body]
fn shuffle_indices(v: &mut Vec<usize>)
    ensures
        final(v)@.to_multiset() == old(v)@.to_multiset(),
        final(v)@.len() == old(v)@.len(),
{
    let mut rng = rand::thread_rng();
    rand::seq::SliceRandom::shuffle(v.as_mut_slice(), &mut rng);
}

/// A uniformly random permutation of the indices `0, …, n-1`: the result
/// holds each of them exactly once, in an order chosen by the outside
/// random generator.
pub fn random_permutation(n: usize) -> (r: Vec<usize>)
    ensures
        r@.len() == n,
        r@.to_multiset() == spec_iota(n as int).to_multiset(),
{
    let mut v: Vec<usize> = Vec::new();
    for i in 0..n
        invariant
            v@.len() == i,
            forall|t: int| 0 <= t < i ==> #[trigger] v@[t] == t as usize,
    {
        v.push(i);
    }
    proof {
        assert(v@ =~= spec_iota(n as int));
    }
    shuffle_indices(&mut v);
    v
}

/// Every entry of a sequence holding exactly the indices below `n` is
/// itself below `n`, and there are `n` of them.
pub proof fn lemma_perm_indices_in_range(perm: Seq<usize>, n: int)
    requires
        n >= 0,
        perm.to_multiset() == spec_iota(n).to_multiset(),
    ensures
        perm.len() == n,
        forall|t: int| 0 <= t < perm.len() ==> #[trigger] perm[t] < n,
{
    broadcast use vstd::seq_lib::group_to_multiset_ensures;

    assert(perm.to_multiset().len() == perm.len());
    assert(spec_iota(n).to_multiset().len() == spec_iota(n).len());
    assert forall|t: int| 0 <= t < perm.len() implies #[trigger] perm[t] < n by {
        assert(perm.contains(perm[t]));
        assert(perm.to_multiset().count(perm[t]) > 0);
        assert(spec_iota(n).to_multiset().count(perm[t]) > 0);
        assert(spec_iota(n).contains(perm[t]));
        let u = choose|u: int| 0 <= u < spec_iota(n).len() && spec_iota(n)[u] == perm[t];
        assert(spec_iota(n)[u] == u as usize);
    }
}

/// The split partition law: cutting any sequence that holds each index
/// below `n` exactly once yields two index sets that are disjoint and
/// together are exactly `{0, …, n-1}`, the first of size `k`.
pub proof fn lemma_split_partition(idx: Seq<usize>, n: int, k: int)
    requires
        0 <= k <= idx.len(),
        0 <= n <= usize::MAX,
        idx.to_multiset() == spec_iota(n).to_multiset(),
    ensures
        idx.take(k).to_set().disjoint(idx.skip(k).to_set()),
        idx.take(k).to_set().union(idx.skip(k).to_set()) == Set::new(
            |u: usize| (u as int) < n,
        ),
        idx.take(k).len() == k,
        idx.len() == n,
{
    broadcast use vstd::seq_lib::group_to_multiset_ensures;

    let head = idx.take(k);
    let tail = idx.skip(k);
    assert(head + tail =~= idx);
    lemma_multiset_commutative(head, tail);

    // Each index occurs exactly once, so no value sits in both halves.
    assert forall|a: int, b: int| 0 <= a < n && 0 <= b < n && a != b implies spec_iota(n)[a]
        != spec_iota(n)[b] by {
        assert(spec_iota(n)[a] == a as usize);
        assert(spec_iota(n)[b] == b as usize);
    }
    assert(spec_iota(n).no_duplicates());
    spec_iota(n).lemma_multiset_has_no_duplicates();
    assert(idx.to_multiset().len() == idx.len());
    assert(spec_iota(n).to_multiset().len() == spec_iota(n).len());
    assert(idx.len() == n);

    assert forall|u: usize| !(head.to_set().contains(u) && tail.to_set().contains(u)) by {
        if head.to_set().contains(u) && tail.to_set().contains(u) {
            assert(head.contains(u));
            assert(tail.contains(u));
            assert(head.to_multiset().count(u) >= 1);
            assert(tail.to_multiset().count(u) >= 1);
            assert(idx.to_multiset().count(u) >= 2);
            assert(spec_iota(n).contains(u));
            assert(spec_iota(n).to_multiset().count(u) == 1);
        }
    }
    assert(head.to_set().disjoint(tail.to_set()));

    // Together the two halves hold exactly the indices below n.
    assert forall|u: usize| head.to_set().union(tail.to_set()).contains(u) <==> (u as int)
        < n by {
        if head.to_set().contains(u) || tail.to_set().contains(u) {
            assert(idx.to_multiset().count(u) >= 1);
            assert(spec_iota(n).contains(u));
            let t = choose|t: int| 0 <= t < n && spec_iota(n)[t] == u;
            assert((u as int) < n);
        }
        if (u as int) < n {
            assert(spec_iota(n)[u as int] == u);
            assert(spec_iota(n).contains(u));
            assert(idx.to_multiset().count(u) >= 1);
            assert(idx.contains(u));
            let t = choose|t: int| 0 <= t < idx.len() && idx[t] == u;
            if t < k {
                assert(head[t] == u);
                assert(head.contains(u));
            } else {
                assert(tail[t - k] == u);
                assert(tail.contains(u));
            }
        }
    }
    assert(head.to_set().union(tail.to_set()) =~= Set::new(|u: usize| (u as int) < n));
}

/// A verified element-wise copy of one feature row.
fn copy_row(x: &Vec<i64>) -> (r: Vec<i64>)
    ensures
        r@ == x@,
{
    let mut r: Vec<i64> = Vec::new();
    let n = x.len();
    for i in 0..n
        invariant
            n == x@.len(),
            r@.len() == i,
            forall|t: int| 0 <= t < i ==> #[trigger] r@[t] == x@[t],
    {
        r.push(x[i]);
    }
    proof {
        assert(r@ =~= x@);
    }
    r
}

/// Gathers the train and test subsets named by an index sequence: the
/// first `train_size` indices select the train rows, the rest the test
/// rows, in order.  This is the deterministic half of the splitter, so a
/// caller can pin the permutation.
pub fn split_by_indices(
    features: &Vec<Vec<i64>>,
    labels: &Vec<u8>,
    indices: &Vec<usize>,
    train_size: usize,
) -> (r: (Vec<Vec<i64>>, Vec<u8>, Vec<Vec<i64>>, Vec<u8>))
    requires
        features@.len() == labels@.len(),
        train_size <= indices@.len(),
        forall|t: int| 0 <= t < indices@.len() ==> #[trigger] indices@[t] < features@.len(),
    ensures
        r.0@.len() == train_size,
        r.1@.len() == train_size,
        r.2@.len() == indices@.len() - train_size,
        r.3@.len() == indices@.len() - train_size,
        forall|t: int|
            0 <= t < train_size ==> #[trigger] r.0@[t]@ == view2(features@)[indices@[t] as int],
        forall|t: int| 0 <= t < train_size ==> #[trigger] r.1@[t] == labels@[indices@[t] as int],
        forall|t: int|
            0 <= t < indices@.len() - train_size ==> #[trigger] r.2@[t]@ == view2(features@)[
                indices@[train_size + t] as int
            ],
        forall|t: int|
            0 <= t < indices@.len() - train_size ==> #[trigger] r.3@[t] == labels@[indices@[
                train_size + t
            ] as int],
{
    let mut train_f: Vec<Vec<i64>> = Vec::new();
    let mut train_l: Vec<u8> = Vec::new();
    let mut test_f: Vec<Vec<i64>> = Vec::new();
    let mut test_l: Vec<u8> = Vec::new();
    let total = indices.len();
    for t in 0..train_size
        invariant
            train_size <= total == indices@.len(),
            features@.len() == labels@.len(),
            forall|u: int| 0 <= u < indices@.len() ==> #[trigger] indices@[u] < features@.len(),
            train_f@.len() == t,
            train_l@.len() == t,
            forall|u: int|
                0 <= u < t ==> #[trigger] train_f@[u]@ == view2(features@)[indices@[u] as int],
            forall|u: int| 0 <= u < t ==> #[trigger] train_l@[u] == labels@[indices@[u] as int],
    {
        let j = indices[t];
        train_f.push(copy_row(&features[j]));
        train_l.push(labels[j]);
    }
    for t in train_size..total
        invariant
            train_size <= total == indices@.len(),
            features@.len() == labels@.len(),
            forall|u: int| 0 <= u < indices@.len() ==> #[trigger] indices@[u] < features@.len(),
            test_f@.len() == t - train_size,
            test_l@.len() == t - train_size,
            forall|u: int|
                0 <= u < t - train_size ==> #[trigger] test_f@[u]@ == view2(features@)[indices@[
                    train_size + u
                ] as int],
            forall|u: int|
                0 <= u < t - train_size ==> #[trigger] test_l@[u] == labels@[indices@[
                    train_size + u
                ] as int],
    {
        let j = indices[t];
        test_f.push(copy_row(&features[j]));
        test_l.push(labels[j]);
    }
    (train_f, train_l, test_f, test_l)
}

/// What `split_data` promises of its output under a given permutation:
/// the permutation holds each row index exactly once, the cut sits at
/// `floor(n * ratio)`, and the four outputs gather the rows the two
/// halves of the permutation name, in order.
pub open spec fn spec_split_ok(
    xs: Seq<Seq<i64>>,
    ys: Seq<u8>,
    ratio: i64,
    perm: Seq<usize>,
    r: (Seq<Seq<i64>>, Seq<u8>, Seq<Seq<i64>>, Seq<u8>),
) -> bool {
    let n = xs.len() as int;
    let k = (n * ratio) / (SCALE as int);
    &&& perm.len() == n
    &&& perm.to_multiset() == spec_iota(n).to_multiset()
    &&& r.0.len() == k
    &&& r.1.len() == k
    &&& r.2.len() == n - k
    &&& r.3.len() == n - k
    &&& (forall|t: int| 0 <= t < k ==> #[trigger] r.0[t] == xs[perm[t] as int])
    &&& (forall|t: int| 0 <= t < k ==> #[trigger] r.1[t] == ys[perm[t] as int])
    &&& (forall|t: int| 0 <= t < n - k ==> #[trigger] r.2[t] == xs[perm[k + t] as int])
    &&& (forall|t: int| 0 <= t < n - k ==> #[trigger] r.3[t] == ys[perm[k + t] as int])
}

/// Randomly partitions the rows into a train set of `floor(n * ratio)`
/// rows and a test set of the rest, by cutting a fresh random
/// permutation of the row indices.
pub fn split_data(features: &Vec<Vec<i64>>, labels: &Vec<u8>, train_ratio: i64) -> (r: (
    Vec<Vec<i64>>,
    Vec<u8>,
    Vec<Vec<i64>>,
    Vec<u8>,
))
    requires
        features@.len() == labels@.len(),
        0 <= train_ratio <= SCALE,
    ensures
        exists|perm: Seq<usize>|
            #[trigger] spec_split_ok(
                view2(features@),
                labels@,
                train_ratio,
                perm,
                (view2(r.0@), r.1@, view2(r.2@), r.3@),
            ),
        r.0@.len() == (features@.len() * train_ratio) / (SCALE as int),
        r.2@.len() == features@.len() - r.0@.len(),
        r.1@.len() == r.0@.len(),
        r.3@.len() == r.2@.len(),
{
    let n = features.len();
    proof {
        let nn = n as int;
        assert(nn * train_ratio <= 0xffff_ffff_ffff_ffff * 1_000_000) by (nonlinear_arith)
            requires
                0 <= nn <= 0xffff_ffff_ffff_ffff,
                0 <= train_ratio <= 1_000_000,
        ;
    }
    let k128: u128 = (n as u128) * (train_ratio as u128) / (SCALE as u128);
    proof {
        let nn = n as int;
        assert(nn * train_ratio <= nn * SCALE) by (nonlinear_arith)
            requires
                0 <= train_ratio <= SCALE,
                nn >= 0,
        ;
        vstd::arithmetic::div_mod::lemma_div_is_ordered(
            nn * train_ratio,
            nn * SCALE,
            SCALE as int,
        );
        vstd::arithmetic::div_mod::lemma_div_by_multiple(nn, SCALE as int);
        assert(nn * SCALE == SCALE * nn) by (nonlinear_arith);
        assert(nn * train_ratio >= 0) by (nonlinear_arith)
            requires
                nn >= 0,
                train_ratio >= 0,
        ;
        vstd::arithmetic::div_mod::lemma_div_pos_is_pos(nn * train_ratio, SCALE as int);
        assert(k128 <= n as u128);
    }
    let train_size: usize = k128 as usize;
    let perm = random_permutation(n);
    proof {
        lemma_perm_indices_in_range(perm@, n as int);
    }
    let out = split_by_indices(features, labels, &perm, train_size);
    proof {
        let gr = (view2(out.0@), out.1@, view2(out.2@), out.3@);
        assert forall|t: int| 0 <= t < train_size implies #[trigger] gr.0[t] == view2(features@)[
            perm@[t] as int
        ] by {
            assert(gr.0[t] == out.0@[t]@);
        }
        assert forall|t: int|
            0 <= t < n - train_size implies #[trigger] gr.2[t] == view2(features@)[perm@[
            train_size + t
        ] as int] by {
            assert(gr.2[t] == out.2@[t]@);
        }
        assert(spec_split_ok(view2(features@), labels@, train_ratio, perm@, gr));
    }
    out
}

} // verus!
