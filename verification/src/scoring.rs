use vstd::prelude::*;
use crate::record::label_views;
use crate::record::KnnError;

verus! {

/// At how many of the first `n` positions the two lists hold the same label.
pub open spec fn matches_upto(actual: Seq<Seq<char>>, predicted: Seq<Seq<char>>, n: nat) -> nat
    decreases n,
{
    if n == 0 {
        0
    } else {
        matches_upto(actual, predicted, (n - 1) as nat) + if actual[n - 1] == predicted[n - 1] {
            1nat
        } else {
            0nat
        }
    }
}

/// At how many positions two lists of equal length hold the same label.
pub open spec fn matches(actual: Seq<Seq<char>>, predicted: Seq<Seq<char>>) -> nat
    recommends
        actual.len() == predicted.len(),
{
    matches_upto(actual, predicted, actual.len())
}

/// The share of correct predictions, held exactly: `correct` out of `total`.
/// As a percentage it is `100 * correct / total`.
#[derive(Debug, Clone, Copy, PartialEq, Eq, Structural)]
pub struct Accuracy {
    pub correct: usize,
    pub total: usize,
}

impl Accuracy {
    /// The accuracy is exactly `percent` per cent.
    pub open spec fn is_percent(&self, percent: int) -> bool {
        100 * self.correct == percent * self.total
    }
}

/// The accuracy that comparing `predicted` with `actual` gives.
pub open spec fn accuracy_of(actual: Seq<Seq<char>>, predicted: Seq<Seq<char>>) -> Accuracy
    recommends
        actual.len() == predicted.len(),
{
    Accuracy { correct: matches(actual, predicted) as usize, total: actual.len() as usize }
}

proof fn lemma_matches_upto(actual: Seq<Seq<char>>, predicted: Seq<Seq<char>>, n: nat)
    ensures
        matches_upto(actual, predicted, n) <= n,
        matches_upto(actual, predicted, n) == n <==> (forall|i: int|
            0 <= i < n ==> actual[i] == predicted[i]),
        matches_upto(actual, predicted, n) == 0 <==> (forall|i: int|
            0 <= i < n ==> actual[i] != predicted[i]),
    decreases n,
{
    if n > 0 {
        lemma_matches_upto(actual, predicted, (n - 1) as nat);
        if matches_upto(actual, predicted, n) == n {
            assert forall|i: int| 0 <= i < n implies actual[i] == predicted[i] by {
                if i < n - 1 {
                }
            }
        }
        if matches_upto(actual, predicted, n) == 0 {
            assert forall|i: int| 0 <= i < n implies actual[i] != predicted[i] by {
                if i < n - 1 {
                }
            }
        }
    }
}

/// An accuracy lies between 0 and 100 per cent. It is 100 per cent exactly
/// when every prediction is right, and 0 per cent exactly when none is. (Of no
/// predictions at all both hold, and every percentage fits.)
pub proof fn lemma_accuracy_bounds(actual: Seq<Seq<char>>, predicted: Seq<Seq<char>>)
    requires
        actual.len() == predicted.len(),
        actual.len() <= usize::MAX,
    ensures
        0 <= 100 * accuracy_of(actual, predicted).correct <= 100 * accuracy_of(
            actual,
            predicted,
        ).total,
        accuracy_of(actual, predicted).is_percent(100) <==> (forall|i: int|
            0 <= i < actual.len() ==> actual[i] == predicted[i]),
        accuracy_of(actual, predicted).is_percent(0) <==> (forall|i: int|
            0 <= i < actual.len() ==> actual[i] != predicted[i]),
{
    lemma_matches_upto(actual, predicted, actual.len());
}

/// Compares predictions with the actual labels, position by position.
/// Lists of different lengths cannot be compared.
pub fn accuracy_metric(actual: Vec<String>, predicted: Vec<String>) -> (out: Result<
    Accuracy,
    KnnError,
>)
    ensures
        actual.len() == predicted.len() ==> out == Ok::<Accuracy, KnnError>(
            accuracy_of(label_views(actual@), label_views(predicted@)),
        ),
        actual.len() != predicted.len() ==> out == Err::<Accuracy, KnnError>(
            KnnError::LengthMismatch,
        ),
{
    if actual.len() != predicted.len() {
        return Err(KnnError::LengthMismatch);
    }
    let ghost a = label_views(actual@);
    let ghost p = label_views(predicted@);
    let mut correct: usize = 0;
    let mut i: usize = 0;
    while i < actual.len()
        invariant
            actual.len() == predicted.len(),
            a == label_views(actual@),
            p == label_views(predicted@),
            i <= actual.len(),
            correct <= i,
            correct == matches_upto(a, p, i as nat),
        decreases actual.len() - i,
    {
        if actual[i] == predicted[i] {
            correct = correct + 1;
        }
        i = i + 1;
    }
    Ok(Accuracy { correct, total: actual.len() })
}

} // verus!
