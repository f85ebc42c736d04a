use vstd::prelude::*;
use vstd::arithmetic::div_mod::lemma_fundamental_div_mod;
use vstd::arithmetic::div_mod::lemma_fundamental_div_mod_converse;
use vstd::seq_lib::lemma_multiset_commutative;
use vstd::seq_lib::to_multiset_build;
use crate::record::KnnError;
use crate::record::Record;

verus! {

/// How many of `len` items fall into fold `f` when they are dealt out in turn
/// to `n_folds` folds: each fold gets the whole share, and the first
/// `len % n_folds` folds one item more.
pub open spec fn fold_size(len: nat, n_folds: nat, f: nat) -> nat
    recommends
        0 < n_folds,
        f < n_folds,
{
    len / n_folds + if f < len % n_folds {
        1nat
    } else {
        0nat
    }
}

/// Fold `f` of `dataset`: the items at positions `f`, `f + n_folds`,
/// `f + 2 * n_folds`, and so on, in that order.
pub open spec fn fold_of<T>(dataset: Seq<T>, n_folds: nat, f: nat) -> Seq<T>
    recommends
        0 < n_folds,
        f < n_folds,
{
    Seq::new(fold_size(dataset.len(), n_folds, f), |j: int| dataset[j * n_folds + f])
}

/// The folds of `dataset`: item `i` goes to fold `i % n_folds`.
pub open spec fn round_robin<T>(dataset: Seq<T>, n_folds: nat) -> Seq<Seq<T>>
    recommends
        0 < n_folds,
{
    Seq::new(n_folds, |f: int| fold_of(dataset, n_folds, f as nat))
}

/// The folds of a split, each as a sequence of records.
pub open spec fn fold_views(folds: Seq<Vec<Record>>) -> Seq<Seq<Record>> {
    Seq::new(folds.len(), |f: int| folds[f]@)
}

/// One more item goes to fold `len % n_folds`, at the end of it, and leaves
/// the other folds as they are.
pub proof fn lemma_fold_size_step(len: nat, n_folds: nat, f: nat)
    requires
        0 < n_folds,
        f < n_folds,
    ensures
        fold_size(len + 1, n_folds, f) == fold_size(len, n_folds, f) + if len % n_folds == f {
            1nat
        } else {
            0nat
        },
        len % n_folds == f ==> fold_size(len, n_folds, f) * n_folds + f == len,
{
    let k = n_folds as int;
    let q = len as int / k;
    let m = len as int % k;
    lemma_fundamental_div_mod(len as int, k);
    assert(k * q == q * k) by (nonlinear_arith);
    if m + 1 < k {
        lemma_fundamental_div_mod_converse(len as int + 1, k, q, m + 1);
    } else {
        assert((q + 1) * k == q * k + k) by (nonlinear_arith);
        lemma_fundamental_div_mod_converse(len as int + 1, k, q + 1, 0);
    }
}

/// The first `n` folds laid end to end.
pub open spec fn concat_upto<T>(folds: Seq<Seq<T>>, n: nat) -> Seq<T>
    recommends
        n <= folds.len(),
    decreases n,
{
    if n == 0 {
        Seq::empty()
    } else {
        concat_upto(folds, (n - 1) as nat) + folds[n - 1]
    }
}

/// All folds laid end to end.
pub open spec fn concat<T>(folds: Seq<Seq<T>>) -> Seq<T> {
    concat_upto(folds, folds.len())
}

/// Every fold holds the whole share `len / n_folds` of the items or one more,
/// so each size is the quotient rounded down or rounded up, and two folds
/// differ by one item at most.
pub proof fn lemma_fold_sizes_balanced(len: nat, n_folds: nat, f: nat)
    requires
        0 < n_folds,
        f < n_folds,
    ensures
        fold_size(len, n_folds, f) == len / n_folds || fold_size(len, n_folds, f) == (len + n_folds
            - 1) / (n_folds as int),
        len / n_folds <= fold_size(len, n_folds, f) <= (len + n_folds - 1) / (n_folds as int),
{
    let k = n_folds as int;
    let q = len as int / k;
    let m = len as int % k;
    lemma_fundamental_div_mod(len as int, k);
    assert(k * q == q * k) by (nonlinear_arith);
    if m == 0 {
        lemma_fundamental_div_mod_converse(len + k - 1, k, q, k - 1);
    } else {
        assert((q + 1) * k == q * k + k) by (nonlinear_arith);
        lemma_fundamental_div_mod_converse(len + k - 1, k, q + 1, m - 1);
    }
}

/// The folds are disjoint and leave nothing out: position `j` of fold `f`
/// holds item `j * n_folds + f` of the dataset, every item of the dataset
/// stands at such a position, and no item stands at two of them.
pub proof fn lemma_folds_partition_positions(len: nat, n_folds: nat)
    requires
        0 < n_folds,
    ensures
        forall|f: int, j: int|
            0 <= f < n_folds && 0 <= j < fold_size(len, n_folds, f as nat) ==> 0 <= #[trigger] (j
                * n_folds + f) < len,
        forall|i: int|
            0 <= i < len ==> 0 <= i % (n_folds as int) < n_folds && 0 <= #[trigger] (i / (
            n_folds as int)) < fold_size(len, n_folds, (i % (n_folds as int)) as nat) && (i / (
            n_folds as int)) * n_folds + i % (n_folds as int) == i,
        forall|f: int, j: int, g: int, h: int|
            0 <= f < n_folds && 0 <= g < n_folds && #[trigger] (j * n_folds + f) == #[trigger] (h
                * n_folds + g) ==> f == g && j == h,
{
    let k = n_folds as int;
    let q = len as int / k;
    let m = len as int % k;
    lemma_fundamental_div_mod(len as int, k);
    assert(k * q == q * k) by (nonlinear_arith);
    assert forall|f: int, j: int|
        0 <= f < n_folds && 0 <= j < fold_size(len, n_folds, f as nat) implies 0 <= #[trigger] (j
        * n_folds + f) < len by {
        assert(0 <= j * k) by (nonlinear_arith)
            requires
                0 <= j,
                0 < k,
        ;
        if j < q {
            assert(j * k + k <= q * k) by (nonlinear_arith)
                requires
                    j + 1 <= q,
                    0 < k,
            ;
        }
    }
    assert forall|i: int| 0 <= i < len implies 0 <= i % k < n_folds && 0 <= #[trigger] (i / k)
        < fold_size(len, n_folds, (i % k) as nat) && (i / k) * n_folds + i % k == i by {
        lemma_fundamental_div_mod(i, k);
        let qi = i / k;
        assert(k * qi == qi * k) by (nonlinear_arith);
        if qi > q {
            assert(qi * k >= q * k + k) by (nonlinear_arith)
                requires
                    qi >= q + 1,
                    0 < k,
            ;
        }
        if qi < 0 {
            assert(qi * k <= -k) by (nonlinear_arith)
                requires
                    qi <= -1,
                    0 < k,
            ;
        }
    }
    assert forall|f: int, j: int, g: int, h: int|
        0 <= f < n_folds && 0 <= g < n_folds && #[trigger] (j * n_folds + f) == #[trigger] (h
            * n_folds + g) implies f == g && j == h by {
        lemma_fundamental_div_mod_converse(j * k + f, k, j, f);
        lemma_fundamental_div_mod_converse(h * k + g, k, h, g);
    }
}

/// With no more folds than items no fold stays empty.
pub proof fn lemma_fold_not_empty(len: nat, n_folds: nat, f: nat)
    requires
        0 < n_folds <= len,
        f < n_folds,
    ensures
        fold_size(len, n_folds, f) > 0,
{
    let k = n_folds as int;
    lemma_fundamental_div_mod(len as int, k);
    if len as int / k <= 0 {
        assert(k * (len as int / k) <= 0) by (nonlinear_arith)
            requires
                len as int / k <= 0,
                k > 0,
        ;
    }
}

proof fn lemma_concat_after_push<T>(folds: Seq<Seq<T>>, f: int, item: T, n: nat)
    requires
        0 <= f < folds.len(),
        n <= folds.len(),
    ensures
        concat_upto(folds.update(f, folds[f].push(item)), n).to_multiset() == if f < n {
            concat_upto(folds, n).to_multiset().insert(item)
        } else {
            concat_upto(folds, n).to_multiset()
        },
    decreases n,
{
    let grown = folds.update(f, folds[f].push(item));
    if n > 0 {
        lemma_concat_after_push(folds, f, item, (n - 1) as nat);
        let head = concat_upto(folds, (n - 1) as nat);
        let grown_head = concat_upto(grown, (n - 1) as nat);
        lemma_multiset_commutative(head, folds[n - 1]);
        lemma_multiset_commutative(grown_head, grown[n - 1]);
        if f == n - 1 {
            to_multiset_build(folds[f], item);
        }
        assert(concat_upto(grown, n).to_multiset() =~= if f < n {
            concat_upto(folds, n).to_multiset().insert(item)
        } else {
            concat_upto(folds, n).to_multiset()
        });
    }
}

proof fn lemma_round_robin_keeps_prefix<T>(dataset: Seq<T>, n_folds: nat, n: nat)
    requires
        0 < n_folds,
        n <= dataset.len(),
    ensures
        concat(round_robin(dataset.take(n as int), n_folds)).to_multiset() == dataset.take(
            n as int,
        ).to_multiset(),
    decreases n,
{
    if n == 0 {
        let empty = round_robin(dataset.take(0), n_folds);
        assert forall|m: nat| m <= n_folds implies #[trigger] concat_upto(empty, m) =~= Seq::<
            T,
        >::empty() by {
            lemma_concat_of_empty_folds(empty, m);
        }
        assert(dataset.take(0) =~= Seq::<T>::empty());
    } else {
        let shorter = dataset.take(n - 1);
        let longer = dataset.take(n as int);
        let item = dataset[n - 1];
        let f = (n - 1) % (n_folds as int);
        lemma_round_robin_keeps_prefix(dataset, n_folds, (n - 1) as nat);
        let before = round_robin(shorter, n_folds);
        let after = round_robin(longer, n_folds);
        assert forall|g: int| 0 <= g < n_folds implies #[trigger] after[g] == before.update(
            f,
            before[f].push(item),
        )[g] by {
            lemma_fold_size_step((n - 1) as nat, n_folds, g as nat);
            lemma_folds_partition_positions((n - 1) as nat, n_folds);
            assert(after[g] =~= before.update(f, before[f].push(item))[g]);
        }
        assert(after =~= before.update(f, before[f].push(item)));
        lemma_concat_after_push(before, f, item, n_folds);
        assert(longer =~= shorter.push(item));
        to_multiset_build(shorter, item);
    }
}

proof fn lemma_concat_of_empty_folds<T>(folds: Seq<Seq<T>>, n: nat)
    requires
        n <= folds.len(),
        forall|f: int| 0 <= f < folds.len() ==> (#[trigger] folds[f]).len() == 0,
    ensures
        concat_upto(folds, n) =~= Seq::<T>::empty(),
    decreases n,
{
    if n > 0 {
        lemma_concat_of_empty_folds(folds, (n - 1) as nat);
    }
}

/// Splitting loses and invents nothing: the folds laid end to end hold the
/// items of the dataset, each as often as the dataset holds it.
pub proof fn lemma_folds_keep_items<T>(dataset: Seq<T>, n_folds: nat)
    requires
        0 < n_folds,
    ensures
        concat(round_robin(dataset, n_folds)).to_multiset() == dataset.to_multiset(),
{
    lemma_round_robin_keeps_prefix(dataset, n_folds, dataset.len());
    assert(dataset.take(dataset.len() as int) =~= dataset);
}

/// Deals the records out to `n_folds` folds in turn: record `i` goes to fold
/// `i % n_folds`. There must be at least one fold and at most as many folds as
/// records.
pub fn cross_validation_split(dataset: Vec<Record>, n_folds: usize) -> (out: Result<
    Vec<Vec<Record>>,
    KnnError,
>)
    ensures
        1 <= n_folds <= dataset.len() ==> out is Ok && out->Ok_0.len() == n_folds && fold_views(
            out->Ok_0@,
        ) == round_robin(dataset@, n_folds as nat),
        !(1 <= n_folds <= dataset.len()) ==> out == Err::<Vec<Vec<Record>>, KnnError>(
            KnnError::InvalidFoldCount,
        ),
{
    if n_folds == 0 || n_folds > dataset.len() {
        return Err(KnnError::InvalidFoldCount);
    }
    let mut splits: Vec<Vec<Record>> = Vec::new();
    let mut f: usize = 0;
    while f < n_folds
        invariant
            f <= n_folds,
            splits.len() == f,
            forall|g: int| 0 <= g < f ==> (#[trigger] splits[g])@.len() == 0,
        decreases n_folds - f,
    {
        splits.push(Vec::new());
        f = f + 1;
    }
    let mut i: usize = 0;
    while i < dataset.len()
        invariant
            0 < n_folds,
            i <= dataset.len(),
            splits.len() == n_folds,
            forall|g: int|
                0 <= g < n_folds ==> (#[trigger] splits[g])@.len() == fold_size(
                    i as nat,
                    n_folds as nat,
                    g as nat,
                ),
            forall|g: int, j: int|
                0 <= g < n_folds && 0 <= j < splits[g]@.len() ==> (#[trigger] splits[g]@[j])
                    == dataset[j * n_folds + g],
        decreases dataset.len() - i,
    {
        let fold: usize = i % n_folds;
        let ghost before = splits@;
        proof {
            assert forall|g: int| 0 <= g < n_folds implies fold_size(
                (i + 1) as nat,
                n_folds as nat,
                g as nat,
            ) == #[trigger] fold_size(i as nat, n_folds as nat, g as nat) + if g == fold {
                1nat
            } else {
                0nat
            } by {
                lemma_fold_size_step(i as nat, n_folds as nat, g as nat);
            }
            lemma_fold_size_step(i as nat, n_folds as nat, fold as nat);
        }
        splits[fold].push(dataset[i].clone());
        assert(forall|g: int| 0 <= g < n_folds && g != fold ==> splits[g] == before[g]);
        assert(splits[fold as int]@ == before[fold as int]@.push(dataset[i as int]));
        i = i + 1;
    }
    proof {
        assert(dataset.len() % n_folds < n_folds);
        assert forall|g: int| 0 <= g < n_folds implies (#[trigger] fold_views(splits@)[g])
            == round_robin(dataset@, n_folds as nat)[g] by {
            assert(splits[g]@ =~= fold_of(dataset@, n_folds as nat, g as nat));
        }
        assert(fold_views(splits@) =~= round_robin(dataset@, n_folds as nat));
    }
    Ok(splits)
}

} // verus!
