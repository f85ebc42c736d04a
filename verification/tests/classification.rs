use rusty_neighbors::classifier::k_nearest_neighbors;
use rusty_neighbors::classifier::majority_vote;
use rusty_neighbors::classifier::predict_classification;
use rusty_neighbors::distance::euclidean_distance;
use rusty_neighbors::distance::euclidean_distance_floor;
use rusty_neighbors::distance::floor_root;
use rusty_neighbors::neighbors::get_neighbors;
use rusty_neighbors::record::KnnError;
use rusty_neighbors::record::Record;
use rusty_neighbors::record::FEATURE_COUNT;
use rusty_neighbors::record::UNIT;

fn record(features: [i32; 4], label: &str) -> Record {
    Record { features, label: label.to_string() }
}

fn labels(items: &[&str]) -> Vec<String> {
    items.iter().map(|s| s.to_string()).collect()
}

fn two_clusters() -> Vec<Record> {
    let far = 10 * UNIT;
    vec![
        record([0, 0, 0, 0], "A"),
        record([0, 0, 0, 0], "A"),
        record([0, 0, 0, 0], "A"),
        record([far, far, far, far], "B"),
        record([far, far, far, far], "B"),
        record([far, far, far, far], "B"),
    ]
}

#[test]
fn constants_describe_the_schema() {
    assert_eq!(FEATURE_COUNT, 4);
    assert_eq!(UNIT, 1_000_000);
}

#[test]
fn new_record_keeps_features_and_label() {
    let built = Record::new([1, 2, 3, 4], "setosa".to_string());
    assert_eq!(built, Ok(record([1, 2, 3, 4], "setosa")));
}

#[test]
fn new_record_refuses_empty_label() {
    assert_eq!(Record::new([1, 2, 3, 4], String::new()), Err(KnnError::EmptyLabel));
}

#[test]
fn rowify_lists_features_in_order() {
    assert_eq!(record([5, -6, 7, 8], "x").rowify(), vec![5, -6, 7, 8]);
}

#[test]
fn clone_copies_the_record() {
    let raw = record([1, 2, 3, 4], "virginica");
    assert_eq!(raw.clone(), raw);
}

#[test]
fn distance_is_sum_of_squared_differences() {
    let a = record([1, 2, 3, 4], "a");
    let b = record([5, 6, 7, 8], "b");
    assert_eq!(euclidean_distance(&a, &b), 64);
    let c = record([0, 3, 0, -4], "c");
    let origin = record([0, 0, 0, 0], "o");
    assert_eq!(euclidean_distance(&c, &origin), 25);
}

#[test]
fn distance_is_symmetric() {
    let a = record([17, -200, 3_000_000, 4], "a");
    let b = record([-5, 60, 7, 8_000], "b");
    assert_eq!(euclidean_distance(&a, &b), euclidean_distance(&b, &a));
}

#[test]
fn distance_to_itself_is_zero() {
    let a = record([17, -200, 3_000_000, 4], "a");
    assert_eq!(euclidean_distance(&a, &a), 0);
    let same_features = record([17, -200, 3_000_000, 4], "other");
    assert_eq!(euclidean_distance(&a, &same_features), 0);
}

#[test]
fn distance_is_positive_between_different_vectors() {
    let a = record([0, 0, 0, 0], "a");
    let b = record([0, 0, 0, 1], "a");
    assert_eq!(euclidean_distance(&a, &b), 1);
}

#[test]
fn distance_between_extreme_values_does_not_overflow() {
    let low = record([i32::MIN; 4], "low");
    let high = record([i32::MAX; 4], "high");
    let side: u128 = (1u128 << 32) - 1;
    assert_eq!(euclidean_distance(&low, &high), 4 * side * side);
}

#[test]
fn floor_root_rounds_down() {
    assert_eq!(floor_root(0), 0);
    assert_eq!(floor_root(1), 1);
    assert_eq!(floor_root(3), 1);
    assert_eq!(floor_root(4), 2);
    assert_eq!(floor_root(24), 4);
    assert_eq!(floor_root(25), 5);
    assert_eq!(floor_root(26), 5);
    assert_eq!(floor_root(1_000_000_000_000), 1_000_000);
    assert_eq!(floor_root(999_999_999_999), 999_999);
}

#[test]
fn floor_root_of_the_largest_numbers() {
    assert_eq!(floor_root(u128::MAX), u64::MAX);
    let top = u64::MAX as u128;
    assert_eq!(floor_root(top * top), u64::MAX);
    assert_eq!(floor_root(top * top - 1), u64::MAX - 1);
}

#[test]
fn distance_rounded_down_to_a_step() {
    let origin = record([0, 0, 0, 0], "o");
    assert_eq!(euclidean_distance_floor(&record([0, 3, 0, -4], "c"), &origin), 5);
    assert_eq!(euclidean_distance_floor(&record([1, 1, 0, 0], "d"), &origin), 1);
    assert_eq!(euclidean_distance_floor(&record([UNIT, UNIT, UNIT, UNIT], "e"), &origin), 2_000_000);
    assert_eq!(euclidean_distance_floor(&origin, &origin), 0);
    let low = record([i32::MIN; 4], "low");
    let high = record([i32::MAX; 4], "high");
    assert_eq!(euclidean_distance_floor(&low, &high), 2 * ((1u64 << 32) - 1));
}

#[test]
fn neighbors_come_nearest_first() {
    let train = vec![
        record([30, 0, 0, 0], "far"),
        record([10, 0, 0, 0], "near"),
        record([20, 0, 0, 0], "middle"),
    ];
    let query = record([0, 0, 0, 0], "?");
    assert_eq!(get_neighbors(&train, &query, 3), Ok(labels(&["near", "middle", "far"])));
    assert_eq!(get_neighbors(&train, &query, 2), Ok(labels(&["near", "middle"])));
}

#[test]
fn neighbor_count_equals_k() {
    let train = two_clusters();
    let query = record([1, 1, 1, 1], "?");
    for k in 0..=train.len() {
        assert_eq!(get_neighbors(&train, &query, k).unwrap().len(), k);
    }
}

#[test]
fn equally_near_neighbors_keep_input_order() {
    let train = vec![
        record([5, 0, 0, 0], "first"),
        record([-5, 0, 0, 0], "second"),
        record([1, 0, 0, 0], "nearest"),
        record([0, 5, 0, 0], "third"),
    ];
    let query = record([0, 0, 0, 0], "?");
    assert_eq!(
        get_neighbors(&train, &query, 4),
        Ok(labels(&["nearest", "first", "second", "third"]))
    );
}

#[test]
fn too_many_neighbors_is_an_error() {
    let train = two_clusters();
    let query = record([1, 1, 1, 1], "?");
    assert_eq!(get_neighbors(&train, &query, 7), Err(KnnError::TooFewTrainingRecords));
    assert_eq!(get_neighbors(&Vec::new(), &query, 1), Err(KnnError::TooFewTrainingRecords));
}

#[test]
fn no_neighbors_of_empty_training_set() {
    let query = record([1, 1, 1, 1], "?");
    assert_eq!(get_neighbors(&Vec::new(), &query, 0), Ok(Vec::new()));
}

#[test]
fn majority_vote_picks_most_frequent_label() {
    assert_eq!(majority_vote(&labels(&["a", "b", "b", "c", "b"])), Ok("b".to_string()));
    assert_eq!(majority_vote(&labels(&["only"])), Ok("only".to_string()));
}

#[test]
fn majority_vote_tie_goes_to_label_met_first() {
    assert_eq!(majority_vote(&labels(&["b", "a", "a", "b"])), Ok("b".to_string()));
    assert_eq!(majority_vote(&labels(&["c", "a", "b", "a", "b"])), Ok("a".to_string()));
}

#[test]
fn majority_vote_needs_a_label() {
    assert_eq!(majority_vote(&Vec::new()), Err(KnnError::NoNeighbors));
}

#[test]
fn exact_match_classification() {
    let train = two_clusters();
    let tenth = UNIT / 10;
    let query = record([tenth, tenth, tenth, tenth], "?");
    assert_eq!(predict_classification(&train, &query, 3), Ok("A".to_string()));
}

#[test]
fn prediction_follows_the_nearer_cluster() {
    let train = two_clusters();
    let query = record([9 * UNIT, 9 * UNIT, 9 * UNIT, 9 * UNIT], "?");
    assert_eq!(predict_classification(&train, &query, 3), Ok("B".to_string()));
    assert_eq!(predict_classification(&train, &query, 5), Ok("B".to_string()));
}

#[test]
fn prediction_tie_goes_to_the_nearest_neighbor() {
    let train = vec![
        record([3, 0, 0, 0], "far"),
        record([1, 0, 0, 0], "near"),
    ];
    let query = record([0, 0, 0, 0], "?");
    assert_eq!(predict_classification(&train, &query, 2), Ok("near".to_string()));
}

#[test]
fn prediction_errors() {
    let train = two_clusters();
    let query = record([0, 0, 0, 0], "?");
    assert_eq!(predict_classification(&train, &query, 0), Err(KnnError::NoNeighbors));
    assert_eq!(predict_classification(&train, &query, 7), Err(KnnError::TooFewTrainingRecords));
}

#[test]
fn knn_predicts_every_test_record() {
    let train = two_clusters();
    let test = vec![
        record([1, 2, 3, 4], "?"),
        record([10 * UNIT, 10 * UNIT, 10 * UNIT, 9 * UNIT], "?"),
        record([0, 0, 0, 0], "?"),
    ];
    assert_eq!(k_nearest_neighbors(&train, &test, 3), Ok(labels(&["A", "B", "A"])));
}

#[test]
fn knn_with_nothing_to_predict_is_empty() {
    let train = two_clusters();
    assert_eq!(k_nearest_neighbors(&train, &Vec::new(), 0), Ok(Vec::new()));
    assert_eq!(k_nearest_neighbors(&train, &Vec::new(), 100), Ok(Vec::new()));
}

#[test]
fn knn_errors() {
    let train = two_clusters();
    let test = vec![record([1, 2, 3, 4], "?")];
    assert_eq!(k_nearest_neighbors(&train, &test, 0), Err(KnnError::NoNeighbors));
    assert_eq!(k_nearest_neighbors(&train, &test, 7), Err(KnnError::TooFewTrainingRecords));
}
