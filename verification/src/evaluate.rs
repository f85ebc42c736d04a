use vstd::prelude::*;
use crate::classifier::k_nearest_neighbors;
use crate::classifier::predicted_labels;
use crate::folds::concat;
use crate::folds::concat_upto;
use crate::folds::cross_validation_split;
use crate::folds::fold_views;
use crate::folds::lemma_fold_not_empty;
use crate::folds::round_robin;
use crate::record::label_views;
use crate::record::KnnError;
use crate::record::Record;
use crate::scoring::accuracy_metric;
use crate::scoring::accuracy_of;
use crate::scoring::Accuracy;

verus! {

/// The records to train on when fold `held_out` is set aside for testing:
/// all other folds laid end to end, in fold order. With a single fold nothing
/// can be set aside, and that fold serves for training as well.
pub open spec fn training_set(folds: Seq<Seq<Record>>, held_out: int) -> Seq<Record>
    recommends
        0 <= held_out < folds.len(),
{
    if folds.len() == 1 {
        folds[0]
    } else {
        concat(folds.remove(held_out))
    }
}

/// The labels that the records of `test` carry, in their order.
pub open spec fn actual_labels(test: Seq<Record>) -> Seq<Seq<char>> {
    Seq::new(test.len(), |i: int| test[i]@.label)
}

/// The score of one fold, given what the algorithm answered for it: its
/// error if it failed, a length mismatch if it did not answer once for every
/// test record, else the accuracy of its predictions.
pub open spec fn fold_score(test: Seq<Record>, answer: Result<Vec<String>, KnnError>) -> Result<
    Accuracy,
    KnnError,
> {
    match answer {
        Err(e) => Err(e),
        Ok(predicted) => if predicted.len() == test.len() {
            Ok(accuracy_of(actual_labels(test), label_views(predicted@)))
        } else {
            Err(KnnError::LengthMismatch)
        },
    }
}

/// `outcome` is a score that `algorithm` can reach on fold `held_out`: the
/// score of some answer that it may give when it is trained on the other
/// folds and asked about the records of this one.
pub open spec fn is_fold_outcome<F: Fn(&Vec<Record>, &Vec<Record>, usize) -> Result<
    Vec<String>,
    KnnError,
>>(
    algorithm: F,
    folds: Seq<Seq<Record>>,
    held_out: int,
    num_neighbors: usize,
    outcome: Result<Accuracy, KnnError>,
) -> bool {
    exists|train: Vec<Record>, test: Vec<Record>, answer: Result<Vec<String>, KnnError>|
        train@ == training_set(folds, held_out) && test@ == folds[held_out] && #[trigger] call_ensures(
            algorithm,
            (&train, &test, num_neighbors),
            answer,
        ) && outcome == fold_score(test@, answer)
}

/// `algorithm` can be scored on fold `held_out`: some answer that it may
/// give there has an accuracy.
pub open spec fn can_score<F: Fn(&Vec<Record>, &Vec<Record>, usize) -> Result<
    Vec<String>,
    KnnError,
>>(algorithm: F, folds: Seq<Seq<Record>>, held_out: int, num_neighbors: usize) -> bool {
    exists|score: Accuracy| #[trigger]
        is_fold_outcome(
            algorithm,
            folds,
            held_out,
            num_neighbors,
            Ok::<Accuracy, KnnError>(score),
        )
}

/// The run fails at fold `held_out` with `error`: the algorithm can be scored
/// on every fold before it, and on this fold it can reach that error.
pub open spec fn fails_first_at<F: Fn(&Vec<Record>, &Vec<Record>, usize) -> Result<
    Vec<String>,
    KnnError,
>>(
    algorithm: F,
    folds: Seq<Seq<Record>>,
    held_out: int,
    num_neighbors: usize,
    error: KnnError,
) -> bool {
    &&& 0 <= held_out < folds.len()
    &&& is_fold_outcome(
        algorithm,
        folds,
        held_out,
        num_neighbors,
        Err::<Accuracy, KnnError>(error),
    )
    &&& forall|h: int| 0 <= h < held_out ==> #[trigger] can_score(algorithm, folds, h, num_neighbors)
}

/// `train` and `test` are the training set and the test set of one round of
/// cross-validation over `folds`.
pub open spec fn is_round(folds: Seq<Seq<Record>>, train: Seq<Record>, test: Seq<Record>) -> bool {
    exists|i: int|
        0 <= i < folds.len() && train == #[trigger] training_set(folds, i) && test == folds[i]
}

/// Appends a copy of every record of `source` to `target`.
fn append_records(target: &mut Vec<Record>, source: &Vec<Record>)
    ensures
        final(target)@ == old(target)@ + source@,
{
    let ghost before = target@;
    let mut j: usize = 0;
    while j < source.len()
        invariant
            j <= source.len(),
            target@ == before + source@.take(j as int),
        decreases source.len() - j,
    {
        target.push(source[j].clone());
        assert(target@ =~= before + source@.take(j + 1));
        j = j + 1;
    }
    assert(source@.take(source.len() as int) =~= source@);
}

/// Gathers the training set for the round in which fold `held_out` is tested.
pub fn gather_training_set(folds: &Vec<Vec<Record>>, held_out: usize) -> (train: Vec<Record>)
    requires
        held_out < folds.len(),
    ensures
        train@ == training_set(fold_views(folds@), held_out as int),
{
    let ghost views = fold_views(folds@);
    let mut train: Vec<Record> = Vec::new();
    if folds.len() == 1 {
        append_records(&mut train, &folds[0]);
        assert(train@ =~= views[0]);
        return train;
    }
    let ghost rest = views.remove(held_out as int);
    let mut g: usize = 0;
    while g < folds.len()
        invariant
            g <= folds.len(),
            held_out < folds.len(),
            views == fold_views(folds@),
            rest == views.remove(held_out as int),
            train@ == concat_upto(
                rest,
                if g <= held_out {
                    g as nat
                } else {
                    (g - 1) as nat
                },
            ),
        decreases folds.len() - g,
    {
        if g != held_out {
            append_records(&mut train, &folds[g]);
            proof {
                if g < held_out {
                    assert(rest[g as int] == views[g as int]);
                } else {
                    assert(rest[g - 1] == views[g as int]);
                }
            }
        }
        g = g + 1;
    }
    train
}

/// Scores one fold from what the algorithm answered for it.
pub fn score_fold(test: &Vec<Record>, answer: Result<Vec<String>, KnnError>) -> (out: Result<
    Accuracy,
    KnnError,
>)
    ensures
        out == fold_score(test@, answer),
{
    match answer {
        Err(e) => Err(e),
        Ok(predicted) => {
            let mut actual: Vec<String> = Vec::new();
            let mut i: usize = 0;
            while i < test.len()
                invariant
                    i <= test.len(),
                    actual.len() == i,
                    forall|j: int| 0 <= j < i ==> (#[trigger] actual[j])@ == test[j]@.label,
                decreases test.len() - i,
            {
                actual.push(test[i].label.clone());
                i = i + 1;
            }
            assert(label_views(actual@) =~= actual_labels(test@));
            accuracy_metric(actual, predicted)
        },
    }
}

/// Evaluates `algorithm` by cross-validation. The dataset is split into
/// `n_folds` folds; each fold in turn is set aside, the algorithm is handed
/// the other folds to train on and the records of this fold to label, and its
/// answer is scored against the labels that those records carry. The scores
/// come in fold order. The first fold that cannot be scored ends the run with
/// its error. The algorithm has to accept the training set and the test set
/// of every round; nothing is asked of it on other inputs.
pub fn evaluate_algorithm<F: Fn(&Vec<Record>, &Vec<Record>, usize) -> Result<Vec<String>, KnnError>>(
    dataset: Vec<Record>,
    algorithm: F,
    n_folds: usize,
    num_neighbors: usize,
) -> (out: Result<Vec<Accuracy>, KnnError>)
    requires
        1 <= n_folds <= dataset.len() ==> forall|train: Vec<Record>, test: Vec<Record>|
            is_round(round_robin(dataset@, n_folds as nat), train@, test@) ==> #[trigger] call_requires(
                algorithm,
                (&train, &test, num_neighbors),
            ),
    ensures
        !(1 <= n_folds <= dataset.len()) ==> out == Err::<Vec<Accuracy>, KnnError>(
            KnnError::InvalidFoldCount,
        ),
        1 <= n_folds <= dataset.len() ==> match out {
            Ok(scores) => scores.len() == n_folds && forall|i: int|
                0 <= i < n_folds ==> is_fold_outcome(
                    algorithm,
                    round_robin(dataset@, n_folds as nat),
                    i,
                    num_neighbors,
                    Ok::<Accuracy, KnnError>(#[trigger] scores[i]),
                ),
            Err(e) => exists|i: int| #[trigger]
                fails_first_at(
                    algorithm,
                    round_robin(dataset@, n_folds as nat),
                    i,
                    num_neighbors,
                    e,
                ),
        },
{
    let ghost items = dataset@;
    let folds = match cross_validation_split(dataset, n_folds) {
        Ok(folds) => folds,
        Err(e) => {
            return Err(e);
        },
    };
    let ghost expected = round_robin(items, n_folds as nat);
    assert(fold_views(folds@).len() == folds.len());
    let mut scores: Vec<Accuracy> = Vec::new();
    let mut i: usize = 0;
    while i < folds.len()
        invariant
            i <= folds.len(),
            folds.len() == n_folds,
            1 <= n_folds <= items.len(),
            items == dataset@,
            expected == round_robin(items, n_folds as nat),
            fold_views(folds@) == expected,
            scores.len() == i,
            forall|train: Vec<Record>, test: Vec<Record>|
                is_round(expected, train@, test@) ==> #[trigger] call_requires(
                    algorithm,
                    (&train, &test, num_neighbors),
                ),
            forall|h: int|
                0 <= h < i ==> is_fold_outcome(
                    algorithm,
                    expected,
                    h,
                    num_neighbors,
                    Ok::<Accuracy, KnnError>(#[trigger] scores[h]),
                ),
        decreases folds.len() - i,
    {
        let train = gather_training_set(&folds, i);
        proof {
            assert(fold_views(folds@)[i as int] == folds[i as int]@);
            assert(train@ == training_set(expected, i as int));
            assert(is_round(expected, train@, folds[i as int]@));
        }
        let answer = algorithm(&train, &folds[i], num_neighbors);
        let ghost kept = answer;
        let outcome = score_fold(&folds[i], answer);
        proof {
            assert(fold_views(folds@)[i as int] == folds[i as int]@);
            assert(call_ensures(algorithm, (&train, &folds[i as int], num_neighbors), kept));
            assert(is_fold_outcome(algorithm, expected, i as int, num_neighbors, outcome));
        }
        match outcome {
            Ok(score) => {
                scores.push(score);
            },
            Err(e) => {
                proof {
                    assert forall|h: int| 0 <= h < i implies #[trigger] can_score(
                        algorithm,
                        expected,
                        h,
                        num_neighbors,
                    ) by {
                        assert(is_fold_outcome(
                            algorithm,
                            expected,
                            h,
                            num_neighbors,
                            Ok::<Accuracy, KnnError>(scores[h]),
                        ));
                    }
                    assert(fails_first_at(algorithm, expected, i as int, num_neighbors, e));
                }
                return Err(e);
            },
        }
        i = i + 1;
    }
    Ok(scores)
}

/// The accuracy that the k-nearest-neighbours classifier reaches on fold
/// `held_out` when it is trained on the other folds.
pub open spec fn knn_fold_accuracy(folds: Seq<Seq<Record>>, held_out: int, k: nat) -> Accuracy
    recommends
        0 <= held_out < folds.len(),
{
    accuracy_of(
        actual_labels(folds[held_out]),
        predicted_labels(training_set(folds, held_out), folds[held_out], k),
    )
}

/// What a round of cross-validation gives for the k-nearest-neighbours
/// classifier on fold `held_out`: an error without neighbours or with too
/// few records to train on, else the accuracy on that fold.
pub open spec fn knn_fold_outcome(folds: Seq<Seq<Record>>, held_out: int, k: nat) -> Result<
    Accuracy,
    KnnError,
>
    recommends
        0 <= held_out < folds.len(),
{
    if k == 0 {
        Err(KnnError::NoNeighbors)
    } else if k > training_set(folds, held_out).len() {
        Err(KnnError::TooFewTrainingRecords)
    } else {
        Ok(knn_fold_accuracy(folds, held_out, k))
    }
}

/// The k-nearest-neighbours classifier leaves no choice: on a fold that is
/// not empty it can reach one outcome only.
pub proof fn lemma_knn_outcome(
    folds: Seq<Seq<Record>>,
    held_out: int,
    num_neighbors: usize,
    outcome: Result<Accuracy, KnnError>,
)
    requires
        0 <= held_out < folds.len(),
        folds[held_out].len() > 0,
        is_fold_outcome(k_nearest_neighbors, folds, held_out, num_neighbors, outcome),
    ensures
        outcome == knn_fold_outcome(folds, held_out, num_neighbors as nat),
{
    let (train, test, answer) = choose|
        train: Vec<Record>,
        test: Vec<Record>,
        answer: Result<Vec<String>, KnnError>,
    |
        train@ == training_set(folds, held_out) && test@ == folds[held_out]
            && #[trigger] call_ensures(
            k_nearest_neighbors,
            (&train, &test, num_neighbors),
            answer,
        ) && outcome == fold_score(test@, answer);
    if answer is Ok {
        assert(label_views(answer->Ok_0@).len() == test.len());
    }
}

/// Evaluates the k-nearest-neighbours classifier by cross-validation. The
/// result is the accuracy on every fold, in fold order. Every round needs at
/// least one neighbour and at least `num_neighbors` records to train on.
pub fn cross_validate(dataset: Vec<Record>, n_folds: usize, num_neighbors: usize) -> (out: Result<
    Vec<Accuracy>,
    KnnError,
>)
    ensures
        !(1 <= n_folds <= dataset.len()) ==> out == Err::<Vec<Accuracy>, KnnError>(
            KnnError::InvalidFoldCount,
        ),
        1 <= n_folds <= dataset.len() && num_neighbors == 0 ==> out == Err::<
            Vec<Accuracy>,
            KnnError,
        >(KnnError::NoNeighbors),
        1 <= n_folds <= dataset.len() && (exists|i: int|
            0 <= i < n_folds && num_neighbors > (#[trigger] training_set(
                round_robin(dataset@, n_folds as nat),
                i,
            )).len()) ==> out == Err::<Vec<Accuracy>, KnnError>(KnnError::TooFewTrainingRecords),
        1 <= n_folds <= dataset.len() && 1 <= num_neighbors && (forall|i: int|
            0 <= i < n_folds ==> num_neighbors <= (#[trigger] training_set(
                round_robin(dataset@, n_folds as nat),
                i,
            )).len()) ==> out is Ok && out->Ok_0@ == Seq::new(
            n_folds as nat,
            |i: int| knn_fold_accuracy(round_robin(dataset@, n_folds as nat), i, num_neighbors as nat),
        ),
{
    let ghost items = dataset@;
    let ghost len = dataset.len();
    let out = evaluate_algorithm(dataset, k_nearest_neighbors, n_folds, num_neighbors);
    proof {
        if 1 <= n_folds <= len {
            let folds = round_robin(items, n_folds as nat);
            let k = num_neighbors as nat;
            assert forall|i: int| 0 <= i < n_folds implies (#[trigger] folds[i]).len() > 0 by {
                lemma_fold_not_empty(len as nat, n_folds as nat, i as nat);
            }
            match &out {
                Ok(scores) => {
                    assert forall|i: int| 0 <= i < n_folds implies Ok::<Accuracy, KnnError>(
                        scores[i],
                    ) == #[trigger] knn_fold_outcome(folds, i, k) by {
                        lemma_knn_outcome(folds, i, num_neighbors, Ok(scores[i]));
                    }
                    assert(knn_fold_outcome(folds, 0, k) is Ok);
                    assert forall|i: int| 0 <= i < n_folds implies num_neighbors <= (
                    #[trigger] training_set(folds, i)).len() by {
                        assert(knn_fold_outcome(folds, i, k) is Ok);
                    }
                    assert(scores@ =~= Seq::new(
                        n_folds as nat,
                        |i: int| knn_fold_accuracy(folds, i, k),
                    ));
                },
                Err(e) => {
                    let i = choose|i: int| #[trigger]
                        fails_first_at(k_nearest_neighbors, folds, i, num_neighbors, *e);
                    lemma_knn_outcome(folds, i, num_neighbors, Err(*e));
                },
            }
        }
    }
    out
}

} // verus!
