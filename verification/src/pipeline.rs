//! The entry point: load, split, train, predict, score, and format the
//! accuracy report.
//!
//! `spec_run_post` says exactly what comes back for every input: each
//! loader error surfaces unchanged, the empty cases are guarded, and on
//! success the report string renders the accuracy that the pipeline
//! computes under some valid permutation of the rows.
use vstd::prelude::*;

use crate::fixed::SCALE;
use crate::loader::{csv_rows, spec_load, load_data, LoadError};
use crate::predictor::{spec_predict_row, predict};
use crate::scorer::{spec_accuracy, compute_accuracy};
use crate::splitter::{spec_iota, spec_split_ok, split_data, lemma_perm_indices_in_range};
use crate::trainer::{spec_train, view2, logistic_regression, NUM_CLASSES};

verus! {

/// The learning rate the entry point trains with: one tenth.
pub const DEFAULT_LEARNING_RATE: i64 = 100_000;

/// The epoch count the entry point trains with.
pub const DEFAULT_EPOCHS: usize = 100_000;

/// The train share the entry point splits at: eight tenths.
pub const DEFAULT_TRAIN_RATIO: i64 = 800_000;

/// An error that aborts a run before a report is produced.
#[derive(Debug, PartialEq, Eq, Clone)]
pub enum RunError {
    /// The loader rejected the input text.
    Load(LoadError),
    /// The text holds no data rows, so there is nothing to learn from.
    EmptyDataset,
    /// More rows than the arithmetic of the trainer can average over.
    DatasetTooLarge,
    /// The split ratio leaves no training rows.
    EmptyTrainSet,
    /// The split ratio leaves no test rows, so accuracy is undefined.
    EmptyTestSet,
}

/// The decimal digits of a non-negative value, as ASCII bytes.
pub open spec fn spec_dec_bytes(v: int) -> Seq<u8>
    recommends
        v >= 0,
    decreases v,
{
    if v < 10 {
        seq![(48 + v) as u8]
    } else {
        spec_dec_bytes(v / 10).push((48 + v % 10) as u8)
    }
}

/// The bytes of the report line: the accuracy as a percentage with two
/// decimal places, between the fixed prefix and the percent sign.
pub open spec fn spec_report_bytes(acc: int) -> Seq<u8>
    recommends
        0 <= acc <= SCALE,
{
    let bp = (acc * 10000) / (SCALE as int);
    seq![
        84u8, 101u8, 115u8, 116u8, 32u8, 65u8, 99u8, 99u8, 117u8, 114u8, 97u8, 99u8, 121u8,
        58u8, 32u8,
    ] + spec_dec_bytes(bp / 100) + seq![46u8, (48 + (bp / 10) % 10) as u8, (48 + bp % 10) as u8, 37u8]
}

/// The characters of the report line.
pub open spec fn spec_report(acc: int) -> Seq<char> {
    spec_report_bytes(acc).map_values(|b: u8| b as char)
}

/// Decimal digit bytes are ASCII digits.
pub proof fn lemma_dec_bytes_ascii(v: int)
    requires
        v >= 0,
    ensures
        forall|i: int|
            0 <= i < spec_dec_bytes(v).len() ==> 48 <= #[trigger] spec_dec_bytes(v)[i] <= 57,
        spec_dec_bytes(v).len() >= 1,
    decreases v,
{
    if v >= 10 {
        lemma_dec_bytes_ascii(v / 10);
    }
}

/// Appends the decimal digits of `v`.
fn push_dec(v: u64, out: &mut Vec<u8>)
    ensures
        final(out)@ == old(out)@ + spec_dec_bytes(v as int),
    decreases v,
{
    if v < 10 {
        out.push(48 + v as u8);
        proof {
            assert(final(out)@ =~= old(out)@ + spec_dec_bytes(v as int));
        }
    } else {
        push_dec(v / 10, out);
        out.push(48 + (v % 10) as u8);
        proof {
            assert(final(out)@ =~= old(out)@ + spec_dec_bytes(v as int));
        }
    }
}

/// Renders the report line as ASCII bytes.
fn render_report(acc: i64) -> (r: Vec<u8>)
    requires
        0 <= acc <= SCALE,
    ensures
        r@ == spec_report_bytes(acc as int),
        forall|i: int| 0 <= i < r@.len() ==> #[trigger] r@[i] < 128,
{
    let bp: i64 = (acc * 10000) / SCALE;
    let mut out: Vec<u8> = Vec::new();
    out.push(84);
    out.push(101);
    out.push(115);
    out.push(116);
    out.push(32);
    out.push(65);
    out.push(99);
    out.push(99);
    out.push(117);
    out.push(114);
    out.push(97);
    out.push(99);
    out.push(121);
    out.push(58);
    out.push(32);
    push_dec((bp / 100) as u64, &mut out);
    out.push(46);
    out.push(48 + ((bp / 10) % 10) as u8);
    out.push(48 + (bp % 10) as u8);
    out.push(37);
    proof {
        lemma_dec_bytes_ascii(bp as int / 100);
        assert(out@ =~= spec_report_bytes(acc as int));
        assert forall|i: int| 0 <= i < out@.len() implies #[trigger] out@[i] < 128 by {
            let dec = spec_dec_bytes(bp as int / 100);
            if 15 <= i < 15 + dec.len() {
                assert(out@[i] == dec[i - 15]);
            }
        }
    }
    out
}

/// Relies on String::from_utf8: ASCII bytes are valid UTF-8 and decode
/// to one character per byte.
#[verifier::external_body]
fn ascii_to_string(v: Vec<u8>) -> (s: String)
    requires
        forall|i: int| 0 <= i < v@.len() ==> v@[i] < 128,
    ensures
        s@ == v@.map_values(|b: u8| b as char),
{
    String::from_utf8(v).unwrap_or_default()
}

/// The accuracy the pipeline computes from a loaded dataset under the
/// permutation `perm`: train on the first `floor(n*ratio)` permuted
/// rows, predict the rest, and score against their labels.
pub open spec fn spec_pipeline(
    xs: Seq<Seq<i64>>,
    ys: Seq<u8>,
    lr: i64,
    epochs: nat,
    ratio: i64,
    perm: Seq<usize>,
) -> int {
    let n = xs.len() as int;
    let k = (n * ratio) / (SCALE as int);
    let txs = Seq::new(k as nat, |t: int| xs[perm[t] as int]);
    let tys = Seq::new(k as nat, |t: int| ys[perm[t] as int]);
    let sxs = Seq::new((n - k) as nat, |t: int| xs[perm[k + t] as int]);
    let sys = Seq::new((n - k) as nat, |t: int| ys[perm[k + t] as int]);
    let wb = spec_train(txs, tys, lr, txs[0].len() as int, epochs);
    let preds = Seq::new(sxs.len(), |i: int| spec_predict_row(sxs[i], wb.0, wb.1) as u8);
    spec_accuracy(preds, sys)
}

/// Everything `run_with` promises: each loader error surfaces wrapped,
/// the degenerate shapes are guarded, and otherwise the result is the
/// report of the accuracy under some permutation holding each row index
/// exactly once.
pub open spec fn spec_run_post(
    input: Seq<char>,
    lr: i64,
    epochs: nat,
    ratio: i64,
    r: Result<String, RunError>,
) -> bool {
    match csv_rows(input) {
        None => r == Err::<String, RunError>(RunError::Load(LoadError::CsvRead)),
        Some(rs) => match spec_load(rs) {
            Err(e) => r == Err::<String, RunError>(RunError::Load(e)),
            Ok((xs, ys)) => {
                let n = xs.len() as int;
                let k = (n * ratio) / (SCALE as int);
                if n == 0 {
                    r == Err::<String, RunError>(RunError::EmptyDataset)
                } else if n > i64::MAX {
                    r == Err::<String, RunError>(RunError::DatasetTooLarge)
                } else if k == 0 {
                    r == Err::<String, RunError>(RunError::EmptyTrainSet)
                } else if k == n {
                    r == Err::<String, RunError>(RunError::EmptyTestSet)
                } else {
                    &&& r is Ok
                    &&& exists|perm: Seq<usize>|
                        #[trigger] perm.to_multiset() == spec_iota(n).to_multiset()
                            && r->Ok_0@ == spec_report(
                            spec_pipeline(xs, ys, lr, epochs, ratio, perm),
                        )
                }
            },
        },
    }
}

/// Runs the whole pipeline on delimited text: load, split at `ratio`,
/// train at the given rate for the given epochs, predict the test rows,
/// and format the accuracy report.
pub fn run_with(csv_data: &str, learning_rate: i64, epochs: usize, train_ratio: i64) -> (r:
    Result<String, RunError>)
    requires
        learning_rate > 0,
        0 <= train_ratio <= SCALE,
    ensures
        spec_run_post(csv_data@, learning_rate, epochs as nat, train_ratio, r),
{
    let loaded = match load_data(csv_data) {
        Ok(p) => p,
        Err(e) => {
            return Err(RunError::Load(e));
        },
    };
    let features = loaded.0;
    let labels = loaded.1;
    let ghost gxs = view2(features@);
    let ghost gys = labels@;
    let n = features.len();
    if n == 0 {
        return Err(RunError::EmptyDataset);
    }
    if (n as u128) > (i64::MAX as u128) {
        return Err(RunError::DatasetTooLarge);
    }
    let split = split_data(&features, &labels, train_ratio);
    let tf = split.0;
    let tl = split.1;
    let sf = split.2;
    let sl = split.3;
    let ghost perm = choose|perm: Seq<usize>|
        #[trigger] spec_split_ok(
            gxs,
            gys,
            train_ratio,
            perm,
            (view2(tf@), tl@, view2(sf@), sl@),
        );
    proof {
        lemma_perm_indices_in_range(perm, n as int);
    }
    if tf.len() == 0 {
        return Err(RunError::EmptyTrainSet);
    }
    if sf.len() == 0 {
        return Err(RunError::EmptyTestSet);
    }
    let ghost k = tf@.len() as int;
    proof {
        assert forall|t: int| 0 <= t < tf@.len() implies #[trigger] tf@[t]@.len() == 4 by {
            assert(view2(tf@)[t] == gxs[perm[t] as int]);
            assert(features@[perm[t] as int]@.len() == 4);
        }
        assert forall|t: int| 0 <= t < sf@.len() implies #[trigger] sf@[t]@.len() == 4 by {
            assert(view2(sf@)[t] == gxs[perm[k + t] as int]);
            assert(features@[perm[k + t] as int]@.len() == 4);
        }
    }
    let model = logistic_regression(&tf, &tl, learning_rate, epochs);
    proof {
        assert forall|kk: int| 0 <= kk < NUM_CLASSES implies #[trigger] model.0@[kk]@.len()
            == sf@[0]@.len() by {
            assert(model.0@[kk]@.len() == tf@[0]@.len());
        }
    }
    let preds = predict(&sf, &model.0, &model.1);
    let acc = compute_accuracy(&preds, &sl);
    let bytes = render_report(acc);
    let s = ascii_to_string(bytes);
    proof {
        let nn = n as int;
        let txs = Seq::new(k as nat, |t: int| gxs[perm[t] as int]);
        let tys = Seq::new(k as nat, |t: int| gys[perm[t] as int]);
        let sxs = Seq::new((nn - k) as nat, |t: int| gxs[perm[k + t] as int]);
        let sys = Seq::new((nn - k) as nat, |t: int| gys[perm[k + t] as int]);
        assert(view2(tf@) =~= txs);
        assert(tl@ =~= tys);
        assert(view2(sf@) =~= sxs);
        assert(sl@ =~= sys);
        let wb = spec_train(txs, tys, learning_rate, txs[0].len() as int, epochs as nat);
        assert(txs[0].len() == tf@[0]@.len());
        assert(view2(model.0@) == wb.0);
        assert(model.1@ == wb.1);
        let spreds = Seq::new(sxs.len(), |i: int| spec_predict_row(sxs[i], wb.0, wb.1) as u8);
        assert forall|i: int| 0 <= i < sxs.len() implies preds@[i] == spreds[i] by {
            assert(preds@[i] as int == spec_predict_row(view2(sf@)[i], view2(model.0@), model.1@));
        }
        assert(preds@ =~= spreds);
        assert(acc == spec_pipeline(gxs, gys, learning_rate, epochs as nat, train_ratio, perm));
        assert(s@ =~= spec_report(acc as int));
    }
    Ok(s)
}

/// Runs the pipeline with the fixed configuration of the entry point:
/// learning rate one tenth, one hundred thousand epochs, and an
/// eighty-percent train share.
pub fn run(csv_data: &str) -> (r: Result<String, RunError>)
    ensures
        spec_run_post(
            csv_data@,
            DEFAULT_LEARNING_RATE,
            DEFAULT_EPOCHS as nat,
            DEFAULT_TRAIN_RATIO,
            r,
        ),
{
    run_with(csv_data, DEFAULT_LEARNING_RATE, DEFAULT_EPOCHS, DEFAULT_TRAIN_RATIO)
}

} // verus!
