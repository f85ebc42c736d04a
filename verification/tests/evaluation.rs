use std::cell::Cell;

use rusty_neighbors::classifier::k_nearest_neighbors;
use rusty_neighbors::evaluate::cross_validate;
use rusty_neighbors::evaluate::evaluate_algorithm;
use rusty_neighbors::evaluate::gather_training_set;
use rusty_neighbors::evaluate::score_fold;
use rusty_neighbors::folds::cross_validation_split;
use rusty_neighbors::normalize::dataset_minmax;
use rusty_neighbors::normalize::normalize_dataset;
use rusty_neighbors::normalize::ColumnStat;
use rusty_neighbors::random::RANDOM_FEATURE_HIGH;
use rusty_neighbors::random::RANDOM_FEATURE_LOW;
use rusty_neighbors::random::RANDOM_LABEL_LENGTH;
use rusty_neighbors::record::KnnError;
use rusty_neighbors::record::Record;
use rusty_neighbors::record::UNIT;
use rusty_neighbors::scoring::accuracy_metric;
use rusty_neighbors::scoring::Accuracy;

fn record(features: [i32; 4], label: &str) -> Record {
    Record { features, label: label.to_string() }
}

fn labels(items: &[&str]) -> Vec<String> {
    items.iter().map(|s| s.to_string()).collect()
}

fn numbered(count: i32) -> Vec<Record> {
    (0..count).map(|i| record([i, 2 * i, -i, 7], &format!("r{}", i))).collect()
}

fn clusters(per_class: i32) -> Vec<Record> {
    let mut dataset = Vec::new();
    for i in 0..per_class {
        dataset.push(record([i, i, i, i], "A"));
        dataset.push(record([10 * UNIT + i, 10 * UNIT, 10 * UNIT, 10 * UNIT], "B"));
    }
    dataset
}

#[test]
fn accuracy_counts_matching_positions() {
    let actual = labels(&["a", "b", "c", "d"]);
    let predicted = labels(&["a", "x", "c", "y"]);
    assert_eq!(accuracy_metric(actual, predicted), Ok(Accuracy { correct: 2, total: 4 }));
}

#[test]
fn accuracy_is_full_iff_all_match() {
    let actual = labels(&["a", "b", "c"]);
    assert_eq!(
        accuracy_metric(actual.clone(), actual.clone()),
        Ok(Accuracy { correct: 3, total: 3 })
    );
    let one_off = labels(&["a", "b", "x"]);
    assert_eq!(accuracy_metric(actual, one_off), Ok(Accuracy { correct: 2, total: 3 }));
}

#[test]
fn accuracy_is_zero_iff_none_match() {
    let actual = labels(&["a", "b", "c"]);
    let predicted = labels(&["b", "c", "a"]);
    assert_eq!(accuracy_metric(actual.clone(), predicted), Ok(Accuracy { correct: 0, total: 3 }));
    let one_right = labels(&["b", "b", "a"]);
    assert_eq!(accuracy_metric(actual, one_right), Ok(Accuracy { correct: 1, total: 3 }));
}

#[test]
fn accuracy_stays_within_bounds() {
    let actual = labels(&["a", "b", "a", "b", "a"]);
    let predicted = labels(&["a", "a", "a", "a", "a"]);
    let score = accuracy_metric(actual, predicted).unwrap();
    assert!(score.correct <= score.total);
    assert_eq!(score, Accuracy { correct: 3, total: 5 });
}

#[test]
fn accuracy_of_nothing_counts_nothing() {
    assert_eq!(accuracy_metric(Vec::new(), Vec::new()), Ok(Accuracy { correct: 0, total: 0 }));
}

#[test]
fn accuracy_refuses_different_lengths() {
    let actual = labels(&["a", "b"]);
    let predicted = labels(&["a"]);
    assert_eq!(accuracy_metric(actual, predicted), Err(KnnError::LengthMismatch));
    assert_eq!(accuracy_metric(Vec::new(), labels(&["a"])), Err(KnnError::LengthMismatch));
}

#[test]
fn split_deals_records_out_in_turn() {
    let dataset = numbered(7);
    let folds = cross_validation_split(dataset.clone(), 3).unwrap();
    assert_eq!(folds.len(), 3);
    assert_eq!(folds[0], vec![dataset[0].clone(), dataset[3].clone(), dataset[6].clone()]);
    assert_eq!(folds[1], vec![dataset[1].clone(), dataset[4].clone()]);
    assert_eq!(folds[2], vec![dataset[2].clone(), dataset[5].clone()]);
}

#[test]
fn split_is_a_partition_with_balanced_folds() {
    for len in 1..20 {
        let dataset = numbered(len);
        for n_folds in 1..=dataset.len() {
            let folds = cross_validation_split(dataset.clone(), n_folds).unwrap();
            assert_eq!(folds.len(), n_folds);
            let floor = dataset.len() / n_folds;
            let ceil = (dataset.len() + n_folds - 1) / n_folds;
            let mut seen: Vec<String> = Vec::new();
            for fold in &folds {
                assert!(fold.len() == floor || fold.len() == ceil);
                for item in fold {
                    assert!(!seen.contains(&item.label));
                    seen.push(item.label.clone());
                }
            }
            assert_eq!(seen.len(), dataset.len());
            for item in &dataset {
                assert!(seen.contains(&item.label));
            }
        }
    }
}

#[test]
fn split_into_as_many_folds_as_records() {
    let dataset = numbered(4);
    let folds = cross_validation_split(dataset.clone(), 4).unwrap();
    for (i, fold) in folds.iter().enumerate() {
        assert_eq!(fold, &vec![dataset[i].clone()]);
    }
}

#[test]
fn split_into_one_fold_keeps_the_dataset() {
    let dataset = numbered(5);
    assert_eq!(cross_validation_split(dataset.clone(), 1), Ok(vec![dataset]));
}

#[test]
fn cross_validation_determinism() {
    let dataset = numbered(23);
    let first = cross_validation_split(dataset.clone(), 5);
    let second = cross_validation_split(dataset.clone(), 5);
    assert!(first.is_ok());
    assert_eq!(first, second);
}

#[test]
fn split_refuses_invalid_fold_counts() {
    assert_eq!(cross_validation_split(numbered(3), 0), Err(KnnError::InvalidFoldCount));
    assert_eq!(cross_validation_split(numbered(3), 4), Err(KnnError::InvalidFoldCount));
    assert_eq!(cross_validation_split(Vec::new(), 0), Err(KnnError::InvalidFoldCount));
    assert_eq!(cross_validation_split(Vec::new(), 1), Err(KnnError::InvalidFoldCount));
}

#[test]
fn minmax_spans_every_column() {
    let dataset = vec![
        record([5, -2, 7, 100], "a"),
        record([1, 9, 7, 300], "b"),
        record([3, 0, 7, 200], "c"),
    ];
    assert_eq!(
        dataset_minmax(dataset),
        Ok([
            ColumnStat { min: 1, max: 5 },
            ColumnStat { min: -2, max: 9 },
            ColumnStat { min: 7, max: 7 },
            ColumnStat { min: 100, max: 300 },
        ])
    );
}

#[test]
fn minmax_of_single_record() {
    assert_eq!(
        dataset_minmax(vec![record([4, 3, 2, 1], "a")]),
        Ok([
            ColumnStat { min: 4, max: 4 },
            ColumnStat { min: 3, max: 3 },
            ColumnStat { min: 2, max: 2 },
            ColumnStat { min: 1, max: 1 },
        ])
    );
}

#[test]
fn minmax_needs_a_record() {
    assert_eq!(dataset_minmax(Vec::new()), Err(KnnError::EmptyDataset));
}

#[test]
fn normalize_rescales_to_unit_range() {
    let mut dataset = vec![
        record([0, 10, -4, 100], "a"),
        record([1, 20, 4, 100], "b"),
        record([3, 30, 0, 250], "c"),
    ];
    let stats = [
        ColumnStat { min: 0, max: 3 },
        ColumnStat { min: 10, max: 30 },
        ColumnStat { min: -4, max: 4 },
        ColumnStat { min: 100, max: 400 },
    ];
    assert_eq!(normalize_dataset(&mut dataset, stats), Ok(()));
    assert_eq!(
        dataset,
        vec![
            record([0, 0, 0, 0], "a"),
            record([333_333, 500_000, UNIT, 0], "b"),
            record([UNIT, UNIT, 500_000, 500_000], "c"),
        ]
    );
}

#[test]
fn normalization_round_trip() {
    let raw = vec![
        record([5_100_000, 3_500_000, 1_400_000, 200_000], "a"),
        record([7_000_000, 3_200_000, 4_700_000, 1_400_000], "b"),
        record([6_300_000, 3_300_000, 6_000_000, 2_500_000], "c"),
        record([4_900_000, 2_400_000, 3_300_000, 1_000_000], "b"),
    ];
    let stats = dataset_minmax(raw.clone()).unwrap();
    let mut dataset = raw.clone();
    assert_eq!(normalize_dataset(&mut dataset, stats), Ok(()));
    for (before, after) in raw.iter().zip(dataset.iter()) {
        assert_eq!(before.label, after.label);
        for c in 0..4 {
            let n = after.features[c] as i64;
            assert!(0 <= n && n <= UNIT as i64);
            let width = stats[c].max as i64 - stats[c].min as i64;
            let restored = stats[c].min as i64 + n * width / UNIT as i64;
            let raw_value = before.features[c] as i64;
            assert!(restored <= raw_value);
            assert!((raw_value - restored) * (UNIT as i64) < width + UNIT as i64);
        }
    }
    assert_eq!(dataset[1].features[0], UNIT);
    assert_eq!(dataset[3].features[0], 0);
}

#[test]
fn normalize_refuses_constant_column() {
    let raw = vec![record([1, 2, 3, 4], "a"), record([2, 2, 5, 6], "b")];
    let stats = dataset_minmax(raw.clone()).unwrap();
    let mut dataset = raw.clone();
    assert_eq!(normalize_dataset(&mut dataset, stats), Err(KnnError::ConstantColumn));
    assert_eq!(dataset, raw);
}

#[test]
fn normalize_rescales_values_outside_the_range() {
    let mut dataset = vec![record([6, -1, 10, 0], "a"), record([-1, 7, -5, 3], "b")];
    let stats = [
        ColumnStat { min: 0, max: 5 },
        ColumnStat { min: 0, max: 5 },
        ColumnStat { min: 0, max: 5 },
        ColumnStat { min: 0, max: 3 },
    ];
    assert_eq!(normalize_dataset(&mut dataset, stats), Ok(()));
    assert_eq!(
        dataset,
        vec![
            record([1_200_000, -200_000, 2_000_000, 0], "a"),
            record([-200_000, 1_400_000, -1_000_000, UNIT], "b"),
        ]
    );
}

#[test]
fn normalize_rounds_down_below_zero_too() {
    let mut dataset = vec![record([-1, -2, 1, 4], "a")];
    let stats = [ColumnStat { min: 0, max: 3 }; 4];
    assert_eq!(normalize_dataset(&mut dataset, stats), Ok(()));
    assert_eq!(dataset, vec![record([-333_334, -666_667, 333_333, 1_333_333], "a")]);
}

#[test]
fn normalize_with_reversed_range() {
    let mut dataset = vec![record([5, 0, 4, 6], "a")];
    let stats = [
        ColumnStat { min: 5, max: 0 },
        ColumnStat { min: 5, max: 0 },
        ColumnStat { min: 3, max: 0 },
        ColumnStat { min: 3, max: 0 },
    ];
    assert_eq!(normalize_dataset(&mut dataset, stats), Ok(()));
    assert_eq!(dataset, vec![record([0, UNIT, -333_334, -UNIT], "a")]);
}

#[test]
fn normalize_refuses_value_too_large_to_store() {
    let raw = vec![record([1, 2, 3, 4], "a"), record([2, 3, 5, 3_000], "b")];
    let stats = [
        ColumnStat { min: 0, max: 10 },
        ColumnStat { min: 0, max: 10 },
        ColumnStat { min: 0, max: 10 },
        ColumnStat { min: 0, max: 1 },
    ];
    let mut dataset = raw.clone();
    assert_eq!(normalize_dataset(&mut dataset, stats), Err(KnnError::RescaledValueTooLarge));
    assert_eq!(dataset, raw);
    let mut negative = vec![record([-3_000, 0, 0, 0], "a")];
    let narrow = [ColumnStat { min: 0, max: 1 }; 4];
    assert_eq!(normalize_dataset(&mut negative, narrow), Err(KnnError::RescaledValueTooLarge));
    assert_eq!(negative, vec![record([-3_000, 0, 0, 0], "a")]);
}

#[test]
fn normalize_stores_the_largest_value_that_fits() {
    let mut dataset = vec![record([2_147, -2_147, 0, 1], "a")];
    let stats = [ColumnStat { min: 0, max: 1 }; 4];
    assert_eq!(normalize_dataset(&mut dataset, stats), Ok(()));
    assert_eq!(dataset, vec![record([2_147_000_000, -2_147_000_000, 0, UNIT], "a")]);
    let mut beyond = vec![record([2_148, 0, 0, 0], "a")];
    assert_eq!(normalize_dataset(&mut beyond, stats), Err(KnnError::RescaledValueTooLarge));
}

#[test]
fn normalize_query_with_dataset_statistics() {
    let dataset = vec![record([0, 10, 20, 30], "a"), record([5, 20, 40, 60], "b")];
    let stats = dataset_minmax(dataset).unwrap();
    let mut query = vec![record([6, 5, 30, 90], "?")];
    assert_eq!(normalize_dataset(&mut query, stats), Ok(()));
    assert_eq!(query, vec![record([1_200_000, -500_000, 500_000, 2_000_000], "?")]);
}

#[test]
fn normalize_empty_dataset_does_nothing() {
    let stats = [ColumnStat { min: 0, max: 10 }; 4];
    let mut dataset: Vec<Record> = Vec::new();
    assert_eq!(normalize_dataset(&mut dataset, stats), Ok(()));
    assert!(dataset.is_empty());
}

#[test]
fn training_set_is_the_other_folds_in_order() {
    let dataset = numbered(7);
    let folds = cross_validation_split(dataset.clone(), 3).unwrap();
    let train = gather_training_set(&folds, 1);
    let expected: Vec<Record> =
        [0, 3, 6, 2, 5].iter().map(|&i: &usize| dataset[i].clone()).collect();
    assert_eq!(train, expected);
    let train = gather_training_set(&folds, 0);
    let expected: Vec<Record> = [1, 4, 2, 5].iter().map(|&i: &usize| dataset[i].clone()).collect();
    assert_eq!(train, expected);
}

#[test]
fn training_set_of_single_fold_is_that_fold() {
    let dataset = numbered(4);
    let folds = cross_validation_split(dataset.clone(), 1).unwrap();
    assert_eq!(gather_training_set(&folds, 0), dataset);
}

#[test]
fn score_fold_compares_with_actual_labels() {
    let test = vec![record([0; 4], "a"), record([1; 4], "b"), record([2; 4], "a")];
    assert_eq!(
        score_fold(&test, Ok(labels(&["a", "a", "a"]))),
        Ok(Accuracy { correct: 2, total: 3 })
    );
    assert_eq!(score_fold(&test, Ok(labels(&["a"]))), Err(KnnError::LengthMismatch));
    assert_eq!(score_fold(&test, Err(KnnError::NoNeighbors)), Err(KnnError::NoNeighbors));
}

#[test]
fn evaluate_scores_every_fold() {
    let dataset = clusters(10);
    let scores = evaluate_algorithm(dataset, k_nearest_neighbors, 5, 3).unwrap();
    assert_eq!(scores, vec![Accuracy { correct: 4, total: 4 }; 5]);
}

#[test]
fn evaluate_with_a_constant_algorithm() {
    let dataset = clusters(5);
    let always_a = |_train: &Vec<Record>, test: &Vec<Record>, _k: usize| {
        Ok(test.iter().map(|_| "A".to_string()).collect::<Vec<String>>())
    };
    let scores = evaluate_algorithm(dataset, always_a, 2, 1).unwrap();
    assert_eq!(scores, vec![Accuracy { correct: 5, total: 5 }, Accuracy { correct: 0, total: 5 }]);
}

#[test]
fn evaluate_hands_each_round_the_other_folds() {
    let dataset = numbered(7);
    let sizes = |train: &Vec<Record>, test: &Vec<Record>, _k: usize| {
        if train.len() + test.len() == 7 {
            Ok(test.iter().map(|r| r.label.clone()).collect::<Vec<String>>())
        } else {
            Err(KnnError::TooFewTrainingRecords)
        }
    };
    let scores = evaluate_algorithm(dataset, sizes, 3, 1).unwrap();
    assert_eq!(
        scores,
        vec![
            Accuracy { correct: 3, total: 3 },
            Accuracy { correct: 2, total: 2 },
            Accuracy { correct: 2, total: 2 },
        ]
    );
}

#[test]
fn evaluate_passes_errors_on() {
    let short = |_train: &Vec<Record>, _test: &Vec<Record>, _k: usize| Ok(Vec::<String>::new());
    assert_eq!(evaluate_algorithm(numbered(6), short, 2, 1), Err(KnnError::LengthMismatch));
    assert_eq!(
        evaluate_algorithm(numbered(6), k_nearest_neighbors, 0, 1),
        Err(KnnError::InvalidFoldCount)
    );
    assert_eq!(
        evaluate_algorithm(numbered(6), k_nearest_neighbors, 7, 1),
        Err(KnnError::InvalidFoldCount)
    );
    assert_eq!(
        evaluate_algorithm(numbered(6), k_nearest_neighbors, 2, 0),
        Err(KnnError::NoNeighbors)
    );
    assert_eq!(
        evaluate_algorithm(numbered(6), k_nearest_neighbors, 2, 4),
        Err(KnnError::TooFewTrainingRecords)
    );
}

#[test]
fn evaluate_stops_at_the_first_failure() {
    let calls = Cell::new(0);
    let picky = |_train: &Vec<Record>, test: &Vec<Record>, _k: usize| {
        calls.set(calls.get() + 1);
        if test.iter().any(|r| r.label == "r1") {
            Err(KnnError::NoNeighbors)
        } else if test.iter().any(|r| r.label == "r2") {
            Err(KnnError::TooFewTrainingRecords)
        } else {
            Ok(test.iter().map(|r| r.label.clone()).collect::<Vec<String>>())
        }
    };
    assert_eq!(evaluate_algorithm(numbered(6), &picky, 3, 1), Err(KnnError::NoNeighbors));
    assert_eq!(calls.get(), 2);
}

#[test]
fn cross_validate_matches_evaluate_with_knn() {
    let dataset = clusters(8);
    assert_eq!(
        cross_validate(dataset.clone(), 4, 3),
        evaluate_algorithm(dataset, k_nearest_neighbors, 4, 3)
    );
}

#[test]
fn cross_validate_scores() {
    let mut dataset = clusters(6);
    dataset[0].label = "B".to_string();
    let scores = cross_validate(dataset, 3, 3).unwrap();
    assert_eq!(
        scores,
        vec![
            Accuracy { correct: 3, total: 4 },
            Accuracy { correct: 4, total: 4 },
            Accuracy { correct: 4, total: 4 },
        ]
    );
}

#[test]
fn cross_validate_with_one_fold_trains_on_it() {
    let dataset = clusters(3);
    assert_eq!(cross_validate(dataset, 1, 1), Ok(vec![Accuracy { correct: 6, total: 6 }]));
}

#[test]
fn cross_validate_errors() {
    assert_eq!(cross_validate(clusters(3), 0, 1), Err(KnnError::InvalidFoldCount));
    assert_eq!(cross_validate(clusters(3), 7, 1), Err(KnnError::InvalidFoldCount));
    assert_eq!(cross_validate(clusters(3), 2, 0), Err(KnnError::NoNeighbors));
    assert_eq!(cross_validate(clusters(3), 2, 4), Err(KnnError::TooFewTrainingRecords));
    assert_eq!(cross_validate(clusters(3), 6, 6), Err(KnnError::TooFewTrainingRecords));
}

#[test]
fn random_record_is_within_bounds() {
    let mut distinct: Vec<i32> = Vec::new();
    let mut labels_seen: Vec<String> = Vec::new();
    for _ in 0..50 {
        let made = Record::rand_flower();
        assert_eq!(made.label.chars().count(), RANDOM_LABEL_LENGTH);
        assert!(made.label.chars().all(|c| c.is_ascii_alphanumeric()));
        for value in made.features {
            assert!(RANDOM_FEATURE_LOW <= value && value < RANDOM_FEATURE_HIGH);
            if !distinct.contains(&value) {
                distinct.push(value);
            }
        }
        if !labels_seen.contains(&made.label) {
            labels_seen.push(made.label.clone());
        }
    }
    assert!(distinct.len() > 1);
    assert!(labels_seen.len() > 1);
}
