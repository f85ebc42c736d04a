use vstd::prelude::*;
use vstd::set_lib::lemma_int_range;
use vstd::set_lib::lemma_subset_equality;
use vstd::set_lib::set_int_range;
use vstd::seq_lib::seq_to_set_is_finite;
use crate::distance::euclidean_distance;
use crate::distance::squared_distance;
use crate::record::label_views;
use crate::record::KnnError;
use crate::record::Record;

verus! {

/// The squared distances from `query` to the records of `train`, in their order.
pub open spec fn distances_to(train: Seq<Record>, query: Record) -> Seq<int> {
    Seq::new(train.len(), |i: int| squared_distance(query@.features, train[i]@.features))
}

/// Index `i` comes before index `j`: it is nearer, or as near and earlier in the input.
pub open spec fn closer(d: Seq<int>, i: int, j: int) -> bool {
    d[i] < d[j] || (d[i] == d[j] && i < j)
}

/// `order` lists the indices of `d` from nearest to farthest, equal distances
/// in input order. Such a list exists for every `d` and is unique.
pub open spec fn is_ranking(d: Seq<int>, order: Seq<int>) -> bool {
    &&& order.len() == d.len()
    &&& forall|r: int| 0 <= r < order.len() ==> 0 <= #[trigger] order[r] < d.len()
    &&& forall|r: int, s: int|
        0 <= r < s < order.len() ==> closer(d, #[trigger] order[r], #[trigger] order[s])
}

/// The indices of `d` from nearest to farthest, equal distances in input order.
pub open spec fn ranking(d: Seq<int>) -> Seq<int> {
    choose|order: Seq<int>| is_ranking(d, order)
}

/// The labels of the `k` records of `train` nearest to `query`, nearest first.
pub open spec fn nearest_labels(train: Seq<Record>, query: Record, k: nat) -> Seq<Seq<char>> {
    Seq::new(k, |r: int| train[ranking(distances_to(train, query))[r]]@.label)
}

/// A ranking names every index.
proof fn lemma_ranking_covers(d: Seq<int>, order: Seq<int>, j: int)
    requires
        is_ranking(d, order),
        0 <= j < d.len(),
    ensures
        exists|r: int| 0 <= r < order.len() && order[r] == j,
{
    let all = set_int_range(0, d.len() as int);
    assert(order.no_duplicates()) by {
        assert forall|r: int, s: int|
            0 <= r < order.len() && 0 <= s < order.len() && r != s implies order[r] != order[s] by {
            if r < s {
                assert(closer(d, order[r], order[s]));
            } else {
                assert(closer(d, order[s], order[r]));
            }
        }
    }
    order.unique_seq_to_set();
    seq_to_set_is_finite(order);
    lemma_int_range(0, d.len() as int);
    assert(order.to_set().subset_of(all)) by {
        assert forall|x: int| order.to_set().contains(x) implies all.contains(x) by {
            let r = choose|r: int| 0 <= r < order.len() && order[r] == x;
            assert(0 <= order[r] < d.len());
        }
    }
    lemma_subset_equality(order.to_set(), all);
    assert(all.contains(j));
    assert(order.to_set().contains(j));
    assert(order.contains(j));
}

proof fn lemma_rankings_agree_upto(d: Seq<int>, first: Seq<int>, second: Seq<int>, n: int)
    requires
        is_ranking(d, first),
        is_ranking(d, second),
        0 <= n <= d.len(),
    ensures
        forall|r: int| 0 <= r < n ==> first[r] == second[r],
    decreases n,
{
    if n > 0 {
        lemma_rankings_agree_upto(d, first, second, n - 1);
        let r = n - 1;
        let a = first[r];
        let b = second[r];
        if a != b {
            lemma_ranking_covers(d, first, b);
            let s = choose|s: int| 0 <= s < first.len() && first[s] == b;
            lemma_ranking_covers(d, second, a);
            let t = choose|t: int| 0 <= t < second.len() && second[t] == a;
            if s < r {
                assert(closer(d, second[s], second[r]));
            } else if t < r {
                assert(closer(d, first[t], first[r]));
            } else {
                assert(closer(d, first[r], first[s]));
                assert(closer(d, second[r], second[t]));
            }
        }
    }
}

/// Two rankings of the same distances are the same list: sorting by distance
/// with equal distances kept in input order leaves no choice.
pub proof fn lemma_ranking_unique(d: Seq<int>, first: Seq<int>, second: Seq<int>)
    requires
        is_ranking(d, first),
        is_ranking(d, second),
    ensures
        first == second,
{
    lemma_rankings_agree_upto(d, first, second, d.len() as int);
    assert(first =~= second);
}

/// The place at which an index of distance `v`, later in the input than
/// all of `order`, goes into `order`: behind everything that is at most as far.
proof fn lemma_find_slot(d: Seq<int>, order: Seq<int>, v: int, p: int) -> (q: int)
    requires
        0 <= p <= order.len(),
        forall|s: int| p <= s < order.len() ==> d[#[trigger] order[s]] > v,
    ensures
        0 <= q <= p,
        forall|s: int| q <= s < order.len() ==> d[#[trigger] order[s]] > v,
        q == 0 || d[order[q - 1]] <= v,
    decreases p,
{
    if p == 0 || d[order[p - 1]] <= v {
        p
    } else {
        lemma_find_slot(d, order, v, p - 1)
    }
}

/// Every list of distances has a ranking, so that `ranking` names one.
pub proof fn lemma_ranking_exists(d: Seq<int>)
    ensures
        is_ranking(d, ranking(d)),
    decreases d.len(),
{
    if d.len() == 0 {
        assert(is_ranking(d, Seq::<int>::empty()));
    } else {
        let shorter = d.drop_last();
        let last = d.len() - 1;
        lemma_ranking_exists(shorter);
        let before = ranking(shorter);
        let p = lemma_find_slot(d, before, d[last], before.len() as int);
        let order = before.insert(p, last);
        assert forall|r: int| 0 <= r < before.len() implies 0 <= #[trigger] before[r] < last
            && d[before[r]] == shorter[before[r]] by {}
        assert forall|r: int, s: int| 0 <= r < s < order.len() implies closer(
            d,
            #[trigger] order[r],
            #[trigger] order[s],
        ) by {
            if s < p {
                assert(closer(shorter, before[r], before[s]));
            } else if s == p {
                if r < p - 1 {
                    assert(closer(shorter, before[r], before[p - 1]));
                }
                assert(before[r] < last);
            } else if r == p {
                assert(d[before[s - 1]] > d[last]);
            } else if r < p {
                assert(closer(shorter, before[r], before[s - 1]));
            } else {
                assert(closer(shorter, before[r - 1], before[s - 1]));
            }
        }
        assert forall|r: int| 0 <= r < order.len() implies 0 <= #[trigger] order[r] < d.len() by {
            if r < p {
                assert(before[r] < last);
            } else if r > p {
                assert(before[r - 1] < last);
            }
        }
        assert(is_ranking(d, order));
    }
}

spec fn as_ints(dist: Seq<u128>) -> Seq<int> {
    Seq::new(dist.len(), |i: int| dist[i] as int)
}

spec fn as_indices(order: Seq<usize>) -> Seq<int> {
    Seq::new(order.len(), |r: int| order[r] as int)
}

/// Sorts the indices of `dist` by insertion: each index goes behind every
/// earlier index that is at most as far.
fn rank_by_distance(dist: &Vec<u128>) -> (order: Vec<usize>)
    ensures
        is_ranking(as_ints(dist@), as_indices(order@)),
{
    let n: usize = dist.len();
    let ghost d = as_ints(dist@);
    let mut order: Vec<usize> = Vec::new();
    let mut i: usize = 0;
    while i < n
        invariant
            n == dist.len(),
            d == as_ints(dist@),
            i <= n,
            order.len() == i,
            forall|r: int| 0 <= r < i ==> #[trigger] order[r] < i,
            forall|r: int, s: int|
                0 <= r < s < i ==> closer(d, #[trigger] order[r] as int, #[trigger] order[s] as int),
        decreases n - i,
    {
        let mut p: usize = i;
        while p > 0 && dist[order[p - 1]] > dist[i]
            invariant
                n == dist.len(),
                d == as_ints(dist@),
                i < n,
                order.len() == i,
                p <= i,
                forall|r: int| 0 <= r < i ==> #[trigger] order[r] < i,
                forall|s: int| p <= s < i ==> d[#[trigger] order[s] as int] > d[i as int],
            decreases p,
        {
            p = p - 1;
        }
        let ghost before = order@;
        order.insert(p, i);
        proof {
            assert forall|r: int, s: int| 0 <= r < s < i + 1 implies closer(
                d,
                #[trigger] order[r] as int,
                #[trigger] order[s] as int,
            ) by {
                if s < p {
                    assert(closer(d, before[r] as int, before[s] as int));
                } else if s == p {
                    if r < p - 1 {
                        assert(closer(d, before[r] as int, before[p - 1] as int));
                    }
                    assert(before[r] < i);
                } else if r == p {
                    assert(d[before[s - 1] as int] > d[i as int]);
                } else if r < p {
                    assert(closer(d, before[r] as int, before[s - 1] as int));
                } else {
                    assert(closer(d, before[r - 1] as int, before[s - 1] as int));
                }
            }
            assert forall|r: int| 0 <= r < i + 1 implies #[trigger] order[r] < i + 1 by {
                if r < p {
                    assert(before[r] < i);
                } else if r > p {
                    assert(before[r - 1] < i);
                }
            }
        }
        i = i + 1;
    }
    order
}

/// The labels of the `num_neighbors` training records nearest to `test_row`,
/// nearest first; records at equal distance keep their input order. Asking for
/// more neighbours than there are training records is an error.
pub fn get_neighbors(train: &Vec<Record>, test_row: &Record, num_neighbors: usize) -> (out: Result<
    Vec<String>,
    KnnError,
>)
    ensures
        num_neighbors <= train.len() ==> out is Ok && out->Ok_0.len() == num_neighbors
            && label_views(out->Ok_0@) == nearest_labels(train@, *test_row, num_neighbors as nat),
        num_neighbors > train.len() ==> out == Err::<Vec<String>, KnnError>(
            KnnError::TooFewTrainingRecords,
        ),
{
    if num_neighbors > train.len() {
        return Err(KnnError::TooFewTrainingRecords);
    }
    let mut dist: Vec<u128> = Vec::new();
    let mut i: usize = 0;
    while i < train.len()
        invariant
            i <= train.len(),
            dist.len() == i,
            forall|j: int|
                0 <= j < i ==> #[trigger] dist[j] as int == squared_distance(
                    test_row@.features,
                    train[j]@.features,
                ),
        decreases train.len() - i,
    {
        dist.push(euclidean_distance(test_row, &train[i]));
        i = i + 1;
    }
    let order = rank_by_distance(&dist);
    let ghost d = distances_to(train@, *test_row);
    proof {
        assert(as_ints(dist@) =~= d);
        lemma_ranking_unique(d, as_indices(order@), ranking(d));
    }
    let mut neighbors: Vec<String> = Vec::new();
    let mut r: usize = 0;
    while r < num_neighbors
        invariant
            r <= num_neighbors <= train.len(),
            order.len() == train.len(),
            as_indices(order@) == ranking(d),
            is_ranking(d, ranking(d)),
            d.len() == train.len(),
            neighbors.len() == r,
            forall|q: int| 0 <= q < r ==> (#[trigger] neighbors[q])@ == train[ranking(d)[q]]@.label,
        decreases num_neighbors - r,
    {
        assert(as_indices(order@)[r as int] == order[r as int]);
        neighbors.push(train[order[r]].label.clone());
        r = r + 1;
    }
    assert(label_views(neighbors@) =~= nearest_labels(train@, *test_row, num_neighbors as nat));
    Ok(neighbors)
}

} // verus!
