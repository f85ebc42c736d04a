use vstd::prelude::*;

verus! {

/// Number of numeric features that every record carries.
pub const FEATURE_COUNT: usize = 4;

/// Number of fixed-point steps that make up the quantity one.
pub const UNIT: i32 = 1_000_000;

/// What a caller did wrong when a computation cannot be carried out.
#[derive(Debug, Clone, Copy, PartialEq, Eq, Structural)]
pub enum KnnError {
    /// A record was given an empty label.
    EmptyLabel,
    /// More neighbours were asked for than there are training records.
    TooFewTrainingRecords,
    /// A vote was asked for among no neighbours at all.
    NoNeighbors,
    /// Actual and predicted labels differ in number.
    LengthMismatch,
    /// Statistics were asked for of a dataset without records.
    EmptyDataset,
    /// A column's minimum equals its maximum, so it cannot be rescaled.
    ConstantColumn,
    /// A rescaled feature is too large to be stored as a feature.
    RescaledValueTooLarge,
    /// The number of folds is zero or exceeds the number of records.
    InvalidFoldCount,
}

/// A labelled data point: `FEATURE_COUNT` fixed-point features and a class label.
#[derive(Debug, PartialEq, Eq)]
pub struct Record {
    pub features: [i32; FEATURE_COUNT],
    pub label: String,
}

/// The mathematical content of a `Record`.
pub struct RecordView {
    pub features: Seq<int>,
    pub label: Seq<char>,
}

impl View for Record {
    type V = RecordView;

    open spec fn view(&self) -> RecordView {
        RecordView {
            features: Seq::new(FEATURE_COUNT as nat, |c: int| self.features@[c] as int),
            label: self.label@,
        }
    }
}

impl Clone for Record {
    fn clone(&self) -> (out: Self)
        ensures
            out == *self,
    {
        Record { features: self.features, label: self.label.clone() }
    }
}

impl Record {
    /// A record is well formed when its label is not empty.
    pub open spec fn well_formed(&self) -> bool {
        self.label@.len() > 0
    }

    /// The features of the record as a list, in column order.
    pub fn rowify(&self) -> (row: Vec<i32>)
        ensures
            row@ == self.features@,
    {
        let mut row: Vec<i32> = Vec::new();
        let mut c: usize = 0;
        while c < FEATURE_COUNT
            invariant
                c <= FEATURE_COUNT,
                row@ == self.features@.take(c as int),
            decreases FEATURE_COUNT - c,
        {
            row.push(self.features[c]);
            assert(row@ =~= self.features@.take(c + 1));
            c = c + 1;
        }
        assert(self.features@.take(FEATURE_COUNT as int) =~= self.features@);
        row
    }

    /// Builds a record, refusing an empty label.
    pub fn new(features: [i32; FEATURE_COUNT], label: String) -> (out: Result<Record, KnnError>)
        ensures
            label@.len() > 0 ==> out == Ok::<Record, KnnError>(Record { features, label }),
            label@.len() == 0 ==> out == Err::<Record, KnnError>(KnnError::EmptyLabel),
            out is Ok ==> out->Ok_0.well_formed(),
    {
        if label.as_str().unicode_len() == 0 {
            Err(KnnError::EmptyLabel)
        } else {
            Ok(Record { features, label })
        }
    }
}

/// The labels of a list, each as its sequence of characters.
pub open spec fn label_views(labels: Seq<String>) -> Seq<Seq<char>> {
    Seq::new(labels.len(), |i: int| labels[i]@)
}

} // verus!
