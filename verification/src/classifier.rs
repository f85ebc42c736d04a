use vstd::prelude::*;
use crate::neighbors::get_neighbors;
use crate::neighbors::nearest_labels;
use crate::record::label_views;
use crate::record::KnnError;
use crate::record::Record;

verus! {

/// How many of the first `n` labels equal `label`.
pub open spec fn occurrences_upto(labels: Seq<Seq<char>>, label: Seq<char>, n: nat) -> nat
    decreases n,
{
    if n == 0 {
        0
    } else {
        occurrences_upto(labels, label, (n - 1) as nat) + if labels[n - 1] == label {
            1nat
        } else {
            0nat
        }
    }
}

/// How many of the labels equal `label`.
pub open spec fn occurrences(labels: Seq<Seq<char>>, label: Seq<char>) -> nat {
    occurrences_upto(labels, label, labels.len())
}

/// The label at position `w` wins the vote: no label occurs more often, and
/// every label that stands before it occurs less often. Among labels that
/// occur equally often the one met first therefore wins.
pub open spec fn is_majority_at(labels: Seq<Seq<char>>, w: int) -> bool {
    &&& 0 <= w < labels.len()
    &&& forall|j: int|
        0 <= j < labels.len() ==> occurrences(labels, #[trigger] labels[j]) <= occurrences(
            labels,
            labels[w],
        )
    &&& forall|j: int|
        0 <= j < w ==> occurrences(labels, #[trigger] labels[j]) < occurrences(labels, labels[w])
}

/// The winner of the vote among `labels`.
pub open spec fn majority_label(labels: Seq<Seq<char>>) -> Seq<char> {
    labels[choose|w: int| is_majority_at(labels, w)]
}

/// The label predicted for `query`: the winner among its `k` nearest neighbours.
pub open spec fn predicted_label(train: Seq<Record>, query: Record, k: nat) -> Seq<char> {
    majority_label(nearest_labels(train, query, k))
}

/// A vote has one winner only.
pub proof fn lemma_majority_unique(labels: Seq<Seq<char>>, v: int, w: int)
    requires
        is_majority_at(labels, v),
        is_majority_at(labels, w),
    ensures
        v == w,
{
    if v < w {
        assert(occurrences(labels, labels[v]) < occurrences(labels, labels[w]));
        assert(occurrences(labels, labels[w]) <= occurrences(labels, labels[v]));
    } else if w < v {
        assert(occurrences(labels, labels[w]) < occurrences(labels, labels[v]));
        assert(occurrences(labels, labels[v]) <= occurrences(labels, labels[w]));
    }
}

/// Among the first `n` labels one stands out: none of them occurs more often
/// in the whole list, and those before it occur less often.
proof fn lemma_leader_upto(labels: Seq<Seq<char>>, n: int) -> (w: int)
    requires
        0 < n <= labels.len(),
    ensures
        0 <= w < n,
        forall|j: int|
            0 <= j < n ==> occurrences(labels, #[trigger] labels[j]) <= occurrences(
                labels,
                labels[w],
            ),
        forall|j: int|
            0 <= j < w ==> occurrences(labels, #[trigger] labels[j]) < occurrences(
                labels,
                labels[w],
            ),
    decreases n,
{
    if n == 1 {
        0
    } else {
        let v = lemma_leader_upto(labels, n - 1);
        if occurrences(labels, labels[n - 1]) > occurrences(labels, labels[v]) {
            n - 1
        } else {
            v
        }
    }
}

/// Every vote among at least one label has a winner, so that
/// `majority_label` names the label of one.
pub proof fn lemma_majority_exists(labels: Seq<Seq<char>>)
    requires
        labels.len() > 0,
    ensures
        is_majority_at(labels, choose|w: int| is_majority_at(labels, w)),
{
    let w = lemma_leader_upto(labels, labels.len() as int);
    assert(is_majority_at(labels, w));
}

/// Counts how often the label at position `at` occurs among `labels`.
fn count_label(labels: &Vec<String>, at: usize) -> (count: usize)
    requires
        at < labels.len(),
    ensures
        count == occurrences(label_views(labels@), labels[at as int]@),
{
    let ghost views = label_views(labels@);
    let mut count: usize = 0;
    let mut j: usize = 0;
    while j < labels.len()
        invariant
            at < labels.len(),
            j <= labels.len(),
            views == label_views(labels@),
            count <= j,
            count == occurrences_upto(views, labels[at as int]@, j as nat),
        decreases labels.len() - j,
    {
        assert(views[j as int] == labels[j as int]@);
        if labels[j] == labels[at] {
            count = count + 1;
        }
        j = j + 1;
    }
    count
}

/// The label that occurs most often among `labels`; among labels that occur
/// equally often, the one that stands first. Without labels there is no vote.
pub fn majority_vote(labels: &Vec<String>) -> (out: Result<String, KnnError>)
    ensures
        labels.len() > 0 ==> out is Ok && out->Ok_0@ == majority_label(label_views(labels@)),
        labels.len() == 0 ==> out == Err::<String, KnnError>(KnnError::NoNeighbors),
{
    if labels.len() == 0 {
        return Err(KnnError::NoNeighbors);
    }
    let ghost views = label_views(labels@);
    let mut best: usize = 0;
    let mut best_count: usize = count_label(labels, 0);
    let mut i: usize = 1;
    while i < labels.len()
        invariant
            1 <= i <= labels.len(),
            views == label_views(labels@),
            best < i,
            best_count == occurrences(views, views[best as int]),
            forall|j: int| 0 <= j < i ==> occurrences(views, #[trigger] views[j]) <= best_count,
            forall|j: int| 0 <= j < best ==> occurrences(views, #[trigger] views[j]) < best_count,
        decreases labels.len() - i,
    {
        let count = count_label(labels, i);
        if count > best_count {
            best = i;
            best_count = count;
        }
        i = i + 1;
    }
    proof {
        assert(is_majority_at(views, best as int));
        lemma_majority_unique(views, best as int, choose|w: int| is_majority_at(views, w));
    }
    Ok(labels[best].clone())
}

/// Predicts the label of `test_row` by a vote among its `num_neighbors`
/// nearest training records.
pub fn predict_classification(train: &Vec<Record>, test_row: &Record, num_neighbors: usize) -> (out:
    Result<String, KnnError>)
    ensures
        1 <= num_neighbors <= train.len() ==> out is Ok && out->Ok_0@ == predicted_label(
            train@,
            *test_row,
            num_neighbors as nat,
        ),
        num_neighbors == 0 ==> out == Err::<String, KnnError>(KnnError::NoNeighbors),
        num_neighbors > train.len() ==> out == Err::<String, KnnError>(
            KnnError::TooFewTrainingRecords,
        ),
{
    match get_neighbors(train, test_row, num_neighbors) {
        Ok(neighbors) => {
            assert(label_views(neighbors@).len() == num_neighbors);
            majority_vote(&neighbors)
        },
        Err(e) => Err(e),
    }
}

/// The labels predicted for the records of `test`, in their order.
pub open spec fn predicted_labels(train: Seq<Record>, test: Seq<Record>, k: nat) -> Seq<Seq<char>> {
    Seq::new(test.len(), |i: int| predicted_label(train, test[i], k))
}

/// Predicts a label for every record of `test`. With nothing to predict the
/// result is empty whatever `num_neighbors` is; otherwise the first prediction
/// that fails ends the run with its error.
pub fn k_nearest_neighbors(train: &Vec<Record>, test: &Vec<Record>, num_neighbors: usize) -> (out:
    Result<Vec<String>, KnnError>)
    ensures
        test.len() == 0 || 1 <= num_neighbors <= train.len() ==> out is Ok && label_views(
            out->Ok_0@,
        ) == predicted_labels(train@, test@, num_neighbors as nat),
        test.len() > 0 && num_neighbors == 0 ==> out == Err::<Vec<String>, KnnError>(
            KnnError::NoNeighbors,
        ),
        test.len() > 0 && num_neighbors > train.len() ==> out == Err::<Vec<String>, KnnError>(
            KnnError::TooFewTrainingRecords,
        ),
{
    let mut predictions: Vec<String> = Vec::new();
    let mut i: usize = 0;
    while i < test.len()
        invariant
            i <= test.len(),
            predictions.len() == i,
            i > 0 ==> 1 <= num_neighbors <= train.len(),
            forall|j: int|
                0 <= j < i ==> (#[trigger] predictions[j])@ == predicted_label(
                    train@,
                    test[j],
                    num_neighbors as nat,
                ),
        decreases test.len() - i,
    {
        match predict_classification(train, &test[i], num_neighbors) {
            Ok(label) => {
                predictions.push(label);
            },
            Err(e) => {
                return Err(e);
            },
        }
        i = i + 1;
    }
    assert(label_views(predictions@) =~= predicted_labels(train@, test@, num_neighbors as nat));
    Ok(predictions)
}

} // verus!
