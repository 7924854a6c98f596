use iris_logreg::fixed::SCALE;
use iris_logreg::loader::{label_bytes, load_data, parse_fixed, LoadError};
use iris_logreg::math::softmax;
use iris_logreg::pipeline::{run, run_with, RunError};
use iris_logreg::predictor::{argmax, predict};
use iris_logreg::scorer::compute_accuracy;
use iris_logreg::splitter::{random_permutation, split_by_indices, split_data};
use iris_logreg::trainer::logistic_regression;

fn sample_csv() -> String {
    let mut s = String::from("Id,A,B,C,D,Species\n");
    let rows = [
        ("1", "5.1", "3.5", "1.4", "0.2", "Iris-setosa"),
        ("2", "4.9", "3.0", "1.4", "0.2", "Iris-setosa"),
        ("3", "4.7", "3.2", "1.3", "0.2", "Iris-setosa"),
        ("4", "7.0", "3.2", "4.7", "1.4", "Iris-versicolor"),
        ("5", "6.4", "3.2", "4.5", "1.5", "Iris-versicolor"),
        ("6", "6.9", "3.1", "4.9", "1.5", "Iris-versicolor"),
        ("7", "6.3", "3.3", "6.0", "2.5", "Iris-virginica"),
        ("8", "5.8", "2.7", "5.1", "1.9", "Iris-virginica"),
        ("9", "7.1", "3.0", "5.9", "2.1", "Iris-virginica"),
        ("10", "5.0", "3.4", "1.5", "0.2", "Iris-setosa"),
    ];
    for (id, a, b, c, d, l) in rows.iter() {
        s.push_str(&format!("{},{},{},{},{},{}\n", id, a, b, c, d, l));
    }
    s
}

#[test]
fn parse_fixed_values() {
    assert_eq!(parse_fixed(&b"5.1".to_vec()), Some(5_100_000));
    assert_eq!(parse_fixed(&b"0.2".to_vec()), Some(200_000));
    assert_eq!(parse_fixed(&b"-3.25".to_vec()), Some(-3_250_000));
    assert_eq!(parse_fixed(&b"+2".to_vec()), Some(2_000_000));
    assert_eq!(parse_fixed(&b"7".to_vec()), Some(7_000_000));
    assert_eq!(parse_fixed(&b"0.1234567".to_vec()), Some(123_456));
    assert_eq!(parse_fixed(&b"abc".to_vec()), None);
    assert_eq!(parse_fixed(&b"".to_vec()), None);
    assert_eq!(parse_fixed(&b"-".to_vec()), None);
    assert_eq!(parse_fixed(&b"1.2.3".to_vec()), None);
}

#[test]
fn round_trip_labels() {
    // Loading recovers class indices whose label strings are exactly
    // the text each row held.
    let text = sample_csv();
    let (_features, labels) = load_data(&text).unwrap();
    let expected = [0u8, 0, 0, 1, 1, 1, 2, 2, 2, 0];
    assert_eq!(labels, expected.to_vec());
    let names = [
        "Iris-setosa".as_bytes(),
        "Iris-versicolor".as_bytes(),
        "Iris-virginica".as_bytes(),
    ];
    for k in 0u8..3 {
        assert_eq!(label_bytes(k), names[k as usize].to_vec());
    }
}

#[test]
fn load_parses_features() {
    // The csv wrapper really splits the text: one header consumed,
    // ten records, four fixed-point features each.
    let text = sample_csv();
    let (features, labels) = load_data(&text).unwrap();
    assert_eq!(features.len(), 10);
    assert_eq!(labels.len(), 10);
    assert_eq!(features[0], vec![5_100_000, 3_500_000, 1_400_000, 200_000]);
    assert_eq!(features[3], vec![7_000_000, 3_200_000, 4_700_000, 1_400_000]);
}

#[test]
fn malformed_row_five_fields() {
    let text = "Id,A,B,C,D,Species\n1,5.1,3.5,1.4,0.2\n";
    match load_data(text) {
        Err(LoadError::MalformedRow { row }) => assert_eq!(row, 0),
        other => panic!("expected a malformed-row error, got {:?}", other),
    }
}

#[test]
fn unknown_label_rejected() {
    let text = "Id,A,B,C,D,Species\n1,5.1,3.5,1.4,0.2,Iris-other\n";
    match load_data(text) {
        Err(LoadError::UnknownLabel { row }) => assert_eq!(row, 0),
        other => panic!("expected an unknown-label error, got {:?}", other),
    }
}

#[test]
fn invalid_number_rejected() {
    let text = "Id,A,B,C,D,Species\n1,abc,3.5,1.4,0.2,Iris-setosa\n";
    match load_data(text) {
        Err(LoadError::InvalidNumber { row, col }) => {
            assert_eq!(row, 0);
            assert_eq!(col, 1);
        },
        other => panic!("expected an invalid-number error, got {:?}", other),
    }
}

#[test]
fn softmax_uniform_on_equal_scores() {
    let probs = softmax(&vec![250_000i64, 250_000, 250_000]);
    assert_eq!(probs, vec![333_333, 333_333, 333_333]);
}

#[test]
fn softmax_entries_in_range_and_sum_near_one() {
    for scores in [
        vec![500_000i64, 500_000, 100_000],
        vec![-4_000_000i64, 2_000_000, 0],
        vec![9_000_000_000i64, -9_000_000_000, 17],
        vec![0i64],
    ] {
        let probs = softmax(&scores);
        assert_eq!(probs.len(), scores.len());
        let mut sum = 0i64;
        for p in probs.iter() {
            assert!(0 <= *p && *p <= SCALE);
            sum += *p;
        }
        assert!(SCALE - (scores.len() as i64) <= sum && sum <= SCALE);
    }
}

#[test]
fn argmax_tie_breaks_low() {
    // Scores 0.5, 0.5, 0.1: after softmax the first two stay tied and
    // class zero must win.
    let probs = softmax(&vec![500_000i64, 500_000, 100_000]);
    assert_eq!(probs[0], probs[1]);
    assert!(probs[0] > probs[2]);
    assert_eq!(argmax(&probs), 0);
}

#[test]
fn accuracy_boundaries() {
    let same = vec![0u8, 1, 2, 1, 0];
    assert_eq!(compute_accuracy(&same, &same.clone()), SCALE);
    let preds = vec![0u8, 0, 0, 0, 0];
    let labels = vec![1u8, 1, 1, 1, 1];
    assert_eq!(compute_accuracy(&preds, &labels), 0);
    let half = compute_accuracy(&vec![0u8, 1, 2, 2], &vec![0u8, 1, 0, 0]);
    assert_eq!(half, SCALE / 2);
}

#[test]
fn split_partition() {
    // The shuffled indices are a permutation of 0..n, and the cut sizes
    // follow floor(n * ratio).
    let n = 10usize;
    let perm = random_permutation(n);
    let mut sorted = perm.clone();
    sorted.sort();
    assert_eq!(sorted, (0..n).collect::<Vec<usize>>());

    let text = sample_csv();
    let (features, labels) = load_data(&text).unwrap();
    let (tf, tl, sf, sl) = split_data(&features, &labels, 800_000);
    assert_eq!(tf.len(), 8);
    assert_eq!(tl.len(), 8);
    assert_eq!(sf.len(), 2);
    assert_eq!(sl.len(), 2);
    for row in tf.iter().chain(sf.iter()) {
        assert!(features.contains(row));
    }
}

#[test]
fn separable_two_class_training_converges() {
    // A separable two-class, two-feature cloud: training accuracy must
    // reach one within a bounded number of epochs at rate one tenth.
    let features = vec![
        vec![-2_000_000i64, -2_000_000],
        vec![-1_500_000, -2_500_000],
        vec![-2_500_000, -1_000_000],
        vec![2_000_000, 2_000_000],
        vec![1_500_000, 2_500_000],
        vec![2_500_000, 1_000_000],
    ];
    let labels = vec![0u8, 0, 0, 1, 1, 1];
    let (w, b) = logistic_regression(&features, &labels, 100_000, 2000);
    let preds = predict(&features, &w, &b);
    assert_eq!(preds, labels);
    assert_eq!(compute_accuracy(&preds, &labels), SCALE);
}

#[test]
fn deterministic_fixed_order_run() {
    // With the permutation pinned to the identity order, the whole
    // train-and-score computation is reproducible bit for bit.
    let text = sample_csv();
    let (features, labels) = load_data(&text).unwrap();
    let indices: Vec<usize> = (0..features.len()).collect();
    let mut accs = Vec::new();
    for _ in 0..2 {
        let (tf, tl, sf, sl) = split_by_indices(&features, &labels, &indices, 8);
        let (w, b) = logistic_regression(&tf, &tl, 100_000, 100_000);
        let preds = predict(&sf, &w, &b);
        accs.push(compute_accuracy(&preds, &sl));
    }
    assert_eq!(accs[0], accs[1]);
}

#[test]
fn run_reports_accuracy() {
    let text = sample_csv();
    let report = run_with(&text, 100_000, 2000, 800_000).unwrap();
    assert!(report.starts_with("Test Accuracy: "));
    assert!(report.ends_with("%"));
    let inner = &report["Test Accuracy: ".len()..report.len() - 1];
    let value: f64 = inner.parse().unwrap();
    assert!((0.0..=100.0).contains(&value));
    let dot = inner.find('.').unwrap();
    assert_eq!(inner.len() - dot - 1, 2);
}

#[test]
fn run_formats_full_accuracy() {
    // A single-class dataset is classified perfectly whatever the
    // split, so the report renders exactly one hundred percent.
    let mut text = String::from("Id,A,B,C,D,Species
");
    for i in 0..5 {
        text.push_str(&format!("{},5.1,3.5,1.4,0.2,Iris-setosa
", i));
    }
    let report = run_with(&text, 100_000, 200, 800_000).unwrap();
    assert_eq!(report, "Test Accuracy: 100.00%");
}

#[test]
fn run_guards_degenerate_inputs() {
    assert_eq!(run("Id,A,B,C,D,Species\n"), Err(RunError::EmptyDataset));
    let text = sample_csv();
    assert_eq!(
        run_with(&text, 100_000, 10, 0),
        Err(RunError::EmptyTrainSet)
    );
    assert_eq!(
        run_with(&text, 100_000, 10, SCALE),
        Err(RunError::EmptyTestSet)
    );
}

#[test]
fn run_wraps_loader_errors() {
    let bad = "Id,A,B,C,D,Species\n1,5.1,3.5,1.4,0.2,Iris-other\n";
    assert_eq!(
        run_with(bad, 100_000, 10, 800_000),
        Err(RunError::Load(LoadError::UnknownLabel { row: 0 }))
    );
}
