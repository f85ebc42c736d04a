use vstd::prelude::*;
use vstd::arithmetic::div_mod::lemma_fundamental_div_mod;
use vstd::arithmetic::div_mod::lemma_fundamental_div_mod_converse;
use crate::record::KnnError;
use crate::record::Record;
use crate::record::FEATURE_COUNT;
use crate::record::UNIT;

verus! {

/// The smallest and the largest value of one feature column.
#[derive(Debug, Clone, Copy, PartialEq, Eq, Structural)]
pub struct ColumnStat {
    pub min: i32,
    pub max: i32,
}

/// `stat` holds the smallest and the largest value that column `c` takes in `dataset`.
pub open spec fn is_column_stat(dataset: Seq<Record>, c: int, stat: ColumnStat) -> bool {
    &&& forall|i: int|
        0 <= i < dataset.len() ==> stat.min <= (#[trigger] dataset[i]).features[c] <= stat.max
    &&& exists|i: int| 0 <= i < dataset.len() && (#[trigger] dataset[i]).features[c] == stat.min
    &&& exists|i: int| 0 <= i < dataset.len() && (#[trigger] dataset[i]).features[c] == stat.max
}

/// `stats` holds, for every column, its smallest and largest value in `dataset`.
pub open spec fn are_column_stats(dataset: Seq<Record>, stats: Seq<ColumnStat>) -> bool {
    &&& stats.len() == FEATURE_COUNT
    &&& forall|c: int| 0 <= c < FEATURE_COUNT ==> is_column_stat(dataset, c, #[trigger] stats[c])
}

/// Some column has a single value only, so that it cannot be rescaled.
pub open spec fn has_constant_column(stats: Seq<ColumnStat>) -> bool {
    exists|c: int| 0 <= c < FEATURE_COUNT && (#[trigger] stats[c]).min == stats[c].max
}

/// Every feature of every record lies within the range that `stats` gives for its column.
pub open spec fn all_within(dataset: Seq<Record>, stats: Seq<ColumnStat>) -> bool {
    forall|i: int, c: int|
        0 <= i < dataset.len() && 0 <= c < FEATURE_COUNT ==> stats[c].min <= (
        #[trigger] dataset[i].features[c]) <= stats[c].max
}

/// The value `v` rescaled by the column's statistics: its distance from the
/// column's minimum as a share of the column's width, in steps of `1 / UNIT`
/// and rounded down to a whole step. A value within the column's range comes
/// to lie between 0 and `UNIT`, one below the minimum becomes negative, and
/// one above the maximum exceeds `UNIT`. Rounding down means towards the
/// smaller number, also where the share is negative.
pub open spec fn rescaled(v: int, stat: ColumnStat) -> int
    recommends
        stat.min != stat.max,
{
    let offset = (v - stat.min) * UNIT;
    let width = stat.max - stat.min;
    if width > 0 {
        offset / width
    } else {
        (-offset) / (-width)
    }
}

/// Every feature of every record, once rescaled, is small enough to be
/// stored as a feature again.
pub open spec fn all_rescaled_fit(dataset: Seq<Record>, stats: Seq<ColumnStat>) -> bool {
    forall|i: int, c: int|
        0 <= i < dataset.len() && 0 <= c < FEATURE_COUNT ==> i32::MIN <= rescaled(
            #[trigger] dataset[i].features[c] as int,
            stats[c],
        ) <= i32::MAX
}

/// The value that a rescaled value `n` stands for in the column's own range,
/// rounded down to a whole step.
pub open spec fn restored(n: int, stat: ColumnStat) -> int {
    stat.min + n * (stat.max - stat.min) / (UNIT as int)
}

/// A rescaled value is the exact share rounded down: multiplied by the
/// column's width it does not exceed the offset in steps, and the next
/// whole number does.
pub proof fn lemma_rescaled_rounds_down(v: int, stat: ColumnStat)
    requires
        stat.min != stat.max,
    ensures
        stat.min < stat.max ==> rescaled(v, stat) * (stat.max - stat.min) <= (v - stat.min) * UNIT
            < (rescaled(v, stat) + 1) * (stat.max - stat.min),
        stat.min > stat.max ==> rescaled(v, stat) * (stat.min - stat.max) <= (stat.min - v) * UNIT
            < (rescaled(v, stat) + 1) * (stat.min - stat.max),
{
    let offset = (v - stat.min) * UNIT;
    let width = stat.max - stat.min;
    let n = rescaled(v, stat);
    if width > 0 {
        lemma_fundamental_div_mod(offset, width);
        assert(n * width <= offset < (n + 1) * width) by (nonlinear_arith)
            requires
                offset == width * n + offset % width,
                0 <= offset % width < width,
        ;
    } else {
        lemma_fundamental_div_mod(-offset, -width);
        assert(n * (-width) <= -offset < (n + 1) * (-width)) by (nonlinear_arith)
            requires
                -offset == (-width) * n + (-offset) % (-width),
                0 <= (-offset) % (-width) < -width,
        ;
        assert(-offset == (stat.min - v) * UNIT) by (nonlinear_arith)
            requires
                offset == (v - stat.min) * UNIT,
        ;
    }
}

/// A rescaled value lies between 0 and `UNIT`; the column's minimum becomes
/// 0 and its maximum `UNIT`.
pub proof fn lemma_rescaled_in_range(v: int, stat: ColumnStat)
    requires
        stat.min <= v <= stat.max,
        stat.min < stat.max,
    ensures
        0 <= rescaled(v, stat) <= UNIT,
        rescaled(stat.min as int, stat) == 0,
        rescaled(stat.max as int, stat) == UNIT,
{
    let width = stat.max - stat.min;
    let x = v - stat.min;
    let n = rescaled(v, stat);
    lemma_fundamental_div_mod(x * UNIT, width);
    assert(0 <= x * UNIT <= width * UNIT) by (nonlinear_arith)
        requires
            0 <= x <= width,
    ;
    assert(0 <= n <= UNIT) by (nonlinear_arith)
        requires
            x * UNIT == width * n + (x * UNIT) % width,
            0 <= (x * UNIT) % width < width,
            0 <= x * UNIT <= width * UNIT,
    ;
    assert(0 * UNIT / width == 0) by (nonlinear_arith)
        requires
            width > 0,
    ;
    assert(width * UNIT / width == UNIT) by (nonlinear_arith)
        requires
            width > 0,
    ;
}

/// Rescaling can be undone up to rounding: the restored value never exceeds
/// the value that was rescaled, and falls short of it by less than one step
/// plus the column's width divided by `UNIT`.
pub proof fn lemma_rescaled_round_trip(v: int, stat: ColumnStat)
    requires
        stat.min <= v <= stat.max,
        stat.min < stat.max,
    ensures
        restored(rescaled(v, stat), stat) <= v,
        (v - restored(rescaled(v, stat), stat)) * UNIT < (stat.max - stat.min) + UNIT,
{
    let width = stat.max - stat.min;
    let x = v - stat.min;
    let n = rescaled(v, stat);
    let y = n * width / (UNIT as int);
    lemma_fundamental_div_mod(x * UNIT, width);
    lemma_fundamental_div_mod(n * width, UNIT as int);
    assert(width * n == n * width) by (nonlinear_arith);
    assert(y <= x) by (nonlinear_arith)
        requires
            n * width == UNIT * y + (n * width) % (UNIT as int),
            0 <= (n * width) % (UNIT as int),
            x * UNIT == n * width + (x * UNIT) % width,
            0 <= (x * UNIT) % width,
            UNIT > 0,
    ;
    assert((x - y) * UNIT < width + UNIT) by (nonlinear_arith)
        requires
            n * width == UNIT * y + (n * width) % (UNIT as int),
            (n * width) % (UNIT as int) < UNIT,
            x * UNIT == n * width + (x * UNIT) % width,
            (x * UNIT) % width < width,
    ;
}

/// With the statistics of a dataset that has no constant column, every
/// feature of the dataset lies within its column's range, so that
/// normalization succeeds, and afterwards every feature lies between 0 and
/// `UNIT` and can be restored up to rounding.
pub proof fn lemma_normalization_round_trip(dataset: Seq<Record>, stats: Seq<ColumnStat>)
    requires
        are_column_stats(dataset, stats),
        !has_constant_column(stats),
    ensures
        all_within(dataset, stats),
        all_rescaled_fit(dataset, stats),
        forall|i: int, c: int|
            0 <= i < dataset.len() && 0 <= c < FEATURE_COUNT ==> 0 <= rescaled(
                #[trigger] dataset[i].features[c] as int,
                stats[c],
            ) <= UNIT,
        forall|i: int, c: int|
            0 <= i < dataset.len() && 0 <= c < FEATURE_COUNT ==> restored(
                rescaled(#[trigger] dataset[i].features[c] as int, stats[c]),
                stats[c],
            ) <= dataset[i].features[c],
        forall|i: int, c: int|
            0 <= i < dataset.len() && 0 <= c < FEATURE_COUNT ==> (dataset[i].features[c] - restored(
                rescaled(#[trigger] dataset[i].features[c] as int, stats[c]),
                stats[c],
            )) * UNIT < (stats[c].max - stats[c].min) + UNIT,
{
    assert forall|i: int, c: int| 0 <= i < dataset.len() && 0 <= c < FEATURE_COUNT implies {
        let v = #[trigger] dataset[i].features[c] as int;
        &&& stats[c].min <= v <= stats[c].max
        &&& 0 <= rescaled(v, stats[c]) <= UNIT
        &&& restored(rescaled(v, stats[c]), stats[c]) <= v
        &&& (v - restored(rescaled(v, stats[c]), stats[c])) * UNIT < (stats[c].max - stats[c].min)
            + UNIT
    } by {
        let v = dataset[i].features[c] as int;
        assert(is_column_stat(dataset, c, stats[c]));
        assert(stats[c].min <= dataset[i].features[c] <= stats[c].max);
        assert(stats[c].min != stats[c].max);
        lemma_rescaled_in_range(v, stats[c]);
        lemma_rescaled_round_trip(v, stats[c]);
    }
}

/// The smallest and the largest value of every feature column, taken over
/// the whole dataset. A dataset without records has none.
pub fn dataset_minmax(dataset: Vec<Record>) -> (out: Result<[ColumnStat; FEATURE_COUNT], KnnError>)
    ensures
        dataset.len() > 0 ==> out is Ok && are_column_stats(dataset@, out->Ok_0@),
        dataset.len() == 0 ==> out == Err::<[ColumnStat; FEATURE_COUNT], KnnError>(
            KnnError::EmptyDataset,
        ),
{
    if dataset.len() == 0 {
        return Err(KnnError::EmptyDataset);
    }
    let mut stats: [ColumnStat; FEATURE_COUNT] = [ColumnStat { min: 0, max: 0 }; FEATURE_COUNT];
    let mut c: usize = 0;
    while c < FEATURE_COUNT
        invariant
            dataset.len() > 0,
            c <= FEATURE_COUNT,
            forall|b: int| 0 <= b < c ==> is_column_stat(dataset@, b, #[trigger] stats@[b]),
        decreases FEATURE_COUNT - c,
    {
        let mut min: i32 = dataset[0].features[c];
        let mut max: i32 = min;
        let ghost mut at_min: int = 0;
        let ghost mut at_max: int = 0;
        let mut j: usize = 1;
        while j < dataset.len()
            invariant
                c < FEATURE_COUNT,
                1 <= j <= dataset.len(),
                0 <= at_min < j,
                0 <= at_max < j,
                dataset[at_min].features[c as int] == min,
                dataset[at_max].features[c as int] == max,
                forall|i: int|
                    0 <= i < j ==> min <= (#[trigger] dataset[i]).features[c as int] <= max,
            decreases dataset.len() - j,
        {
            let value: i32 = dataset[j].features[c];
            if value < min {
                min = value;
                proof {
                    at_min = j as int;
                }
            } else if value > max {
                max = value;
                proof {
                    at_max = j as int;
                }
            }
            j = j + 1;
        }
        let ghost before = stats@;
        stats[c] = ColumnStat { min, max };
        proof {
            assert(forall|b: int| 0 <= b < c ==> stats@[b] == before[b]);
            assert(is_column_stat(dataset@, c as int, stats@[c as int]));
        }
        c = c + 1;
    }
    Ok(stats)
}

/// Rescales one value by its column's statistics.
fn rescale(value: i32, stat: ColumnStat) -> (out: i64)
    requires
        stat.min != stat.max,
    ensures
        out == rescaled(value as int, stat),
{
    let distance: i64 = value as i64 - stat.min as i64;
    let span: i64 = stat.max as i64 - stat.min as i64;
    assert(-0x1_0000_0000 * 1_000_000 <= distance * UNIT <= 0x1_0000_0000 * 1_000_000)
        by (nonlinear_arith)
        requires
            -0x1_0000_0000 <= distance <= 0x1_0000_0000,
            UNIT == 1_000_000,
    ;
    let steps: i64 = distance * (UNIT as i64);
    let offset: i64 = if span > 0 {
        steps
    } else {
        -steps
    };
    let width: i64 = if span > 0 {
        span
    } else {
        -span
    };
    if offset >= 0 {
        offset / width
    } else {
        let above: i64 = (width - 1 - offset) / width;
        proof {
            let q = above as int;
            let r = (width - 1 - offset) % (width as int);
            lemma_fundamental_div_mod(width - 1 - offset, width as int);
            assert(offset == (-q) * width + (width - 1 - r)) by (nonlinear_arith)
                requires
                    width - 1 - offset == width * q + r,
            ;
            lemma_fundamental_div_mod_converse(offset as int, width as int, -q, width - 1 - r);
        }
        -above
    }
}

/// Whether every feature of every record can be stored again once it is rescaled.
fn check_fit(dataset: &Vec<Record>, minmax: &[ColumnStat; FEATURE_COUNT]) -> (ok: bool)
    requires
        !has_constant_column(minmax@),
    ensures
        ok == all_rescaled_fit(dataset@, minmax@),
{
    let mut i: usize = 0;
    while i < dataset.len()
        invariant
            i <= dataset.len(),
            !has_constant_column(minmax@),
            forall|h: int, c: int|
                0 <= h < i && 0 <= c < FEATURE_COUNT ==> i32::MIN <= rescaled(
                    #[trigger] dataset[h].features[c] as int,
                    minmax@[c],
                ) <= i32::MAX,
        decreases dataset.len() - i,
    {
        let mut c: usize = 0;
        while c < FEATURE_COUNT
            invariant
                i < dataset.len(),
                c <= FEATURE_COUNT,
                !has_constant_column(minmax@),
                forall|b: int|
                    0 <= b < c ==> i32::MIN <= rescaled(
                        #[trigger] dataset[i as int].features[b] as int,
                        minmax@[b],
                    ) <= i32::MAX,
            decreases FEATURE_COUNT - c,
        {
            assert(minmax@[c as int].min != minmax@[c as int].max);
            let scaled: i64 = rescale(dataset[i].features[c], minmax[c]);
            if scaled < i32::MIN as i64 || scaled > i32::MAX as i64 {
                assert(!(i32::MIN <= rescaled(
                    dataset[i as int].features[c as int] as int,
                    minmax@[c as int],
                ) <= i32::MAX));
                return false;
            }
            c = c + 1;
        }
        i = i + 1;
    }
    true
}

/// `after` holds the records of `before` with the same labels and with every
/// feature rescaled by its column's statistics.
pub open spec fn is_normalized(before: Seq<Record>, after: Seq<Record>, stats: Seq<ColumnStat>) -> bool {
    &&& after.len() == before.len()
    &&& forall|i: int| 0 <= i < before.len() ==> (#[trigger] after[i]).label == before[i].label
    &&& forall|i: int, c: int|
        0 <= i < before.len() && 0 <= c < FEATURE_COUNT ==> (#[trigger] after[i].features[c])
            == rescaled(before[i].features[c] as int, stats[c])
}

/// Rescales every feature of every record by its column's minimum and
/// maximum, in steps of `1 / UNIT`: the minimum becomes 0, the maximum
/// `UNIT`, and any other value what the same straight line gives, also
/// outside the column's range. A column whose minimum equals its maximum
/// cannot be rescaled. A rescaled value too large to be stored as a feature
/// is an error as well. Both leave the dataset as it was.
pub fn normalize_dataset(dataset: &mut Vec<Record>, minmax: [ColumnStat; FEATURE_COUNT]) -> (out:
    Result<(), KnnError>)
    ensures
        has_constant_column(minmax@) ==> out == Err::<(), KnnError>(KnnError::ConstantColumn)
            && *final(dataset) == *old(dataset),
        !has_constant_column(minmax@) && !all_rescaled_fit(old(dataset)@, minmax@) ==> out == Err::<
            (),
            KnnError,
        >(KnnError::RescaledValueTooLarge) && *final(dataset) == *old(dataset),
        !has_constant_column(minmax@) && all_rescaled_fit(old(dataset)@, minmax@) ==> out == Ok::<
            (),
            KnnError,
        >(()) && is_normalized(old(dataset)@, final(dataset)@, minmax@),
{
    let mut c: usize = 0;
    while c < FEATURE_COUNT
        invariant
            c <= FEATURE_COUNT,
            forall|b: int| 0 <= b < c ==> (#[trigger] minmax@[b]).min != minmax@[b].max,
        decreases FEATURE_COUNT - c,
    {
        if minmax[c].min == minmax[c].max {
            return Err(KnnError::ConstantColumn);
        }
        c = c + 1;
    }
    if !check_fit(dataset, &minmax) {
        return Err(KnnError::RescaledValueTooLarge);
    }
    let ghost before = dataset@;
    let mut i: usize = 0;
    while i < dataset.len()
        invariant
            i <= dataset.len(),
            dataset.len() == before.len(),
            !has_constant_column(minmax@),
            all_rescaled_fit(before, minmax@),
            forall|h: int| 0 <= h < dataset.len() ==> (#[trigger] dataset[h]).label == before[h].label,
            forall|h: int| i <= h < dataset.len() ==> (#[trigger] dataset[h]) == before[h],
            forall|h: int, b: int|
                0 <= h < i && 0 <= b < FEATURE_COUNT ==> (#[trigger] dataset[h].features[b])
                    == rescaled(before[h].features[b] as int, minmax@[b]),
        decreases dataset.len() - i,
    {
        let mut c: usize = 0;
        while c < FEATURE_COUNT
            invariant
                i < dataset.len(),
                c <= FEATURE_COUNT,
                dataset.len() == before.len(),
                !has_constant_column(minmax@),
                all_rescaled_fit(before, minmax@),
                forall|h: int|
                    0 <= h < dataset.len() ==> (#[trigger] dataset[h]).label == before[h].label,
                forall|h: int| i < h < dataset.len() ==> (#[trigger] dataset[h]) == before[h],
                forall|h: int, b: int|
                    0 <= h < i && 0 <= b < FEATURE_COUNT ==> (#[trigger] dataset[h].features[b])
                        == rescaled(before[h].features[b] as int, minmax@[b]),
                forall|b: int|
                    0 <= b < c ==> (#[trigger] dataset[i as int].features[b]) == rescaled(
                        before[i as int].features[b] as int,
                        minmax@[b],
                    ),
                forall|b: int|
                    c <= b < FEATURE_COUNT ==> (#[trigger] dataset[i as int].features[b])
                        == before[i as int].features[b],
            decreases FEATURE_COUNT - c,
        {
            proof {
                assert(minmax@[c as int].min != minmax@[c as int].max);
                assert(i32::MIN <= rescaled(
                    before[i as int].features[c as int] as int,
                    minmax@[c as int],
                ) <= i32::MAX);
            }
            let scaled: i64 = rescale(dataset[i].features[c], minmax[c]);
            dataset[i].features[c] = scaled as i32;
            c = c + 1;
        }
        i = i + 1;
    }
    Ok(())
}

} // verus!
