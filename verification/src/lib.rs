//! A multiclass linear classifier: multinomial logistic regression
//! trained by full-batch gradient descent on a small labelled tabular
//! dataset, reporting test-set accuracy.
//!
//! All numbers are fixed-point `i64` values scaled by `fixed::SCALE`, so
//! every stage carries an exact contract: the loader pins which value or
//! error each record set yields, the splitter cuts a permutation that
//! provably partitions the row indices, the trainer equals the
//! mathematical recurrence `trainer::spec_train`, softmax carries its
//! distribution invariant, and the arg-max resolves ties to the lowest
//! class.  The csv reader, the random shuffle and the final UTF-8
//! conversion are the only trusted boundaries.
use vstd::prelude::*;

pub mod fixed;
pub mod math;
pub mod trainer;
pub mod predictor;
pub mod scorer;
pub mod splitter;
pub mod loader;
pub mod pipeline;
