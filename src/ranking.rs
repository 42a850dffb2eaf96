//! Ranking with deterministic tie-breaks: by a primary key descending, then
//! a secondary key descending, then by first position.
use vstd::prelude::*;

verus! {

/// Item `p` ranks ahead of item `q`.
pub open spec fn ahead(items: Seq<(u64, u64)>, p: int, q: int) -> bool {
    items[p].0 > items[q].0 || (items[p].0 == items[q].0 && (items[p].1 > items[q].1 || (items[p].1
        == items[q].1 && p < q)))
}

/// `p` is the best-ranked item among those not in `chosen`.
pub open spec fn is_next(items: Seq<(u64, u64)>, chosen: Seq<usize>, p: int) -> bool {
    &&& 0 <= p < items.len()
    &&& !chosen.contains(p as usize)
    &&& forall|q: int|
        0 <= q < items.len() && q != p && !chosen.contains(q as usize) ==> ahead(items, p, q)
}

/// `r` lists the positions of the `n` best-ranked items (all of them when
/// there are fewer), best first.
pub open spec fn is_ranking(items: Seq<(u64, u64)>, n: int, r: Seq<usize>) -> bool {
    &&& r.len() == if n < items.len() { n } else { items.len() as int }
    &&& forall|i: int| 0 <= i < r.len() ==> is_next(items, r.take(i), #[trigger] r[i] as int)
}

/// Positions of the `n` best-ranked items, best first.
pub fn rank_top(items: &Vec<(u64, u64)>, n: usize) -> (r: Vec<usize>)
    ensures
        is_ranking(items@, n as int, r@),
{
    let len = items.len();
    let target = if n < len { n } else { len };
    let mut taken: Vec<bool> = Vec::new();
    let mut k: usize = 0;
    while k < len
        invariant
            k <= len,
            len == items@.len(),
            taken@.len() == k,
            forall|q: int| 0 <= q < k ==> !taken@[q],
        decreases len - k,
    {
        taken.push(false);
        k = k + 1;
    }
    let mut r: Vec<usize> = Vec::new();
    while r.len() < target
        invariant
            target <= len,
            len == items@.len(),
            target == if n < items@.len() { n as int } else { items@.len() as int },
            r@.len() <= target,
            taken@.len() == len,
            forall|q: int| 0 <= q < len ==> (taken@[q] <==> r@.contains(q as usize)),
            forall|i: int| 0 <= i < r@.len() ==> is_next(items@, r@.take(i), #[trigger] r@[i] as int),
        decreases target - r@.len(),
    {
        let mut best: usize = len;
        let mut q: usize = 0;
        while q < len
            invariant
                len == items@.len(),
                taken@.len() == len,
                q <= len,
                best == len || (best < q && !taken@[best as int]),
                best == len ==> forall|j: int| 0 <= j < q ==> taken@[j],
                best < len ==> forall|j: int|
                    0 <= j < q && j != best && !taken@[j] ==> ahead(items@, best as int, j),
            decreases len - q,
        {
            if !taken[q] {
                if best == len {
                    best = q;
                } else {
                    let (b0, b1) = items[best];
                    let (c0, c1) = items[q];
                    if c0 > b0 || (c0 == b0 && c1 > b1) {
                        best = q;
                    }
                }
            }
            q = q + 1;
        }
        proof {
            if best == len {
                // every item is taken, so `r` already holds all of them
                let ghost rs = r@.to_set();
                assert(r@.no_duplicates()) by {
                    assert forall|a: int, b: int| 0 <= a < b < r@.len() implies r@[a] != r@[b] by {
                        assert(is_next(items@, r@.take(b), r@[b] as int));
                        assert(r@.take(b)[a] == r@[a]);
                    }
                }
                r@.unique_seq_to_set();
                let ghost full = Set::<usize>::range(0usize, len);
                assert(full.subset_of(rs)) by {
                    assert forall|j: usize| full.contains(j) implies rs.contains(j) by {
                        assert(taken@[j as int]);
                        assert(r@.contains(j as int as usize));
                    }
                }
                broadcast use vstd::set_lib::range_set_properties, vstd::seq_lib::seq_to_set_is_finite;
                vstd::set_lib::lemma_len_subset(full, rs);
                assert(false);
            }
        }
        let ghost before = r@;
        let ghost taken0 = taken@;
        assert(is_next(items@, before, best as int)) by {
            assert forall|j: int|
                0 <= j < items@.len() && j != best && !before.contains(j as usize) implies ahead(
                items@,
                best as int,
                j,
            ) by {
                assert(!taken0[j]);
            }
        }
        taken.set(best, true);
        r.push(best);
        proof {
            assert(r@.take(before.len() as int) == before);
            assert(r@ == before.push(best));
            assert forall|q: int| 0 <= q < len implies (taken@[q] <==> r@.contains(q as usize)) by {
                if q == best {
                    assert(r@[before.len() as int] == best);
                } else {
                    if before.contains(q as usize) {
                        let a = choose|a: int| 0 <= a < before.len() && before[a] == q as usize;
                        assert(r@[a] == q as usize);
                    }
                    if r@.contains(q as usize) {
                        let a = choose|a: int| 0 <= a < r@.len() && r@[a] == q as usize;
                        assert(before[a] == q as usize);
                    }
                }
            }
            assert forall|i: int| 0 <= i < r@.len() implies is_next(items@, r@.take(i), #[trigger] r@[i] as int) by {
                if i < before.len() {
                    assert(r@.take(i) == before.take(i));
                    assert(r@[i] == before[i]);
                } else {
                    assert(!before.contains(best));
                }
            }
        }
    }
    r
}

/// In a ranking, an earlier entry ranks ahead of a later one.
pub proof fn lemma_ranking_ordered(items: Seq<(u64, u64)>, n: int, r: Seq<usize>, a: int, b: int)
    requires
        is_ranking(items, n, r),
        0 <= a < b < r.len(),
    ensures
        ahead(items, r[a] as int, r[b] as int),
{
    assert(is_next(items, r.take(a), r[a] as int));
    assert(is_next(items, r.take(b), r[b] as int));
    assert(r.take(b)[a] == r[a]);
    assert(r.take(b).contains(r[a]));
    assert(!r.take(a).contains(r[b])) by {
        if r.take(a).contains(r[b]) {
            let k = choose|k: int| 0 <= k < r.take(a).len() && r.take(a)[k] == r[b];
            assert(r.take(b)[k] == r[b]);
        }
    }
}

/// A full ranking lists every position.
pub proof fn lemma_ranking_permutes(items: Seq<(u64, u64)>, r: Seq<usize>)
    requires
        is_ranking(items, items.len() as int, r),
        items.len() <= usize::MAX,
    ensures
        forall|p: int| 0 <= p < items.len() ==> #[trigger] r.contains(p as usize),
{
    assert forall|p: int| 0 <= p < items.len() implies #[trigger] r.contains(p as usize) by {
        if !r.contains(p as usize) {
            let rs = r.to_set();
            assert(r.no_duplicates()) by {
                assert forall|a: int, b: int| 0 <= a < b < r.len() implies r[a] != r[b] by {
                    assert(is_next(items, r.take(b), r[b] as int));
                    assert(r.take(b)[a] == r[a]);
                }
            }
            r.unique_seq_to_set();
            let full = Set::<usize>::range(0usize, items.len() as usize);
            assert(rs.subset_of(full.remove(p as usize))) by {
                assert forall|j: usize| rs.contains(j) implies full.remove(p as usize).contains(j) by {
                    let a = choose|a: int| 0 <= a < r.len() && r[a] == j;
                    assert(is_next(items, r.take(a), r[a] as int));
                    assert(j != p as usize);
                    assert(full.contains(j));
                }
            }
            broadcast use vstd::set_lib::range_set_properties;
            vstd::set_lib::lemma_len_subset(rs, full.remove(p as usize));
        }
    }
}

/// Sum of a sequence of integers.
pub open spec fn sum_ints(v: Seq<int>) -> int
    decreases v.len(),
{
    if v.len() == 0 {
        0
    } else {
        sum_ints(v.drop_last()) + v.last()
    }
}

pub proof fn lemma_sum_remove(v: Seq<int>, i: int)
    requires
        0 <= i < v.len(),
    ensures
        sum_ints(v) == sum_ints(v.remove(i)) + v[i],
    decreases v.len(),
{
    if i < v.len() - 1 {
        assert(v.remove(i).drop_last() == v.drop_last().remove(i));
        assert(v.remove(i).last() == v.last());
        lemma_sum_remove(v.drop_last(), i);
    } else {
        assert(v.remove(i) == v.drop_last());
    }
}

/// `order` lists each of the positions `0..n` exactly once.
pub open spec fn is_permutation(order: Seq<usize>, n: int) -> bool {
    &&& order.len() == n
    &&& forall|i: int| 0 <= i < order.len() ==> (#[trigger] order[i] as int) < n
    &&& order.no_duplicates()
    &&& forall|p: int| 0 <= p < n ==> #[trigger] order.contains(p as usize)
}

/// Summing in the order of a permutation gives the same sum.
pub proof fn lemma_sum_permuted(v: Seq<int>, order: Seq<usize>)
    requires
        is_permutation(order, v.len() as int),
        v.len() <= usize::MAX,
    ensures
        sum_ints(order.map_values(|i: usize| v[i as int])) == sum_ints(v),
    decreases v.len(),
{
    let n = v.len() as int;
    if n > 0 {
        assert(order.contains((n - 1) as usize));
        let i = choose|i: int| 0 <= i < order.len() && order[i] == (n - 1) as usize;
        let o2 = order.remove(i);
        let v2 = v.drop_last();
        assert forall|a: int| 0 <= a < o2.len() implies (#[trigger] o2[a] as int) < n - 1 by {
            if a < i {
                assert(o2[a] == order[a]);
            } else {
                assert(o2[a] == order[a + 1]);
            }
        }
        assert forall|p: int| 0 <= p < n - 1 implies #[trigger] o2.contains(p as usize) by {
            assert(order.contains(p as usize));
            let a = choose|a: int| 0 <= a < order.len() && order[a] == p as usize;
            if a < i {
                assert(o2[a] == p as usize);
            } else {
                assert(a != i);
                assert(o2[a - 1] == p as usize);
            }
        }
        assert(o2.no_duplicates()) by {
            assert forall|a: int, b: int| 0 <= a < o2.len() && 0 <= b < o2.len() && a != b implies o2[a] != o2[b] by {
                let a1 = if a < i { a } else { a + 1 };
                let b1 = if b < i { b } else { b + 1 };
                assert(o2[a] == order[a1] && o2[b] == order[b1]);
            }
        }
        lemma_sum_permuted(v2, o2);
        let mapped = order.map_values(|j: usize| v[j as int]);
        lemma_sum_remove(mapped, i);
        assert(mapped.remove(i) =~= o2.map_values(|j: usize| v2[j as int]));
        assert(mapped[i] == v[n - 1]);
        assert(v.drop_last() == v2);
    }
}

/// A ranking is determined by the items: two rankings of the same items
/// to the same depth are equal.
pub proof fn lemma_ranking_unique(items: Seq<(u64, u64)>, n: int, r1: Seq<usize>, r2: Seq<usize>)
    requires
        is_ranking(items, n, r1),
        is_ranking(items, n, r2),
    ensures
        r1 == r2,
{
    assert forall|i: int| 0 <= i < r1.len() implies r1[i] == r2[i] by {
        lemma_ranking_prefix(items, n, r1, r2, i);
        assert(r1.take(i + 1)[i] == r1[i]);
        assert(r2.take(i + 1)[i] == r2[i]);
    }
    assert(r1 =~= r2);
}

proof fn lemma_ranking_prefix(items: Seq<(u64, u64)>, n: int, r1: Seq<usize>, r2: Seq<usize>, i: int)
    requires
        is_ranking(items, n, r1),
        is_ranking(items, n, r2),
        0 <= i < r1.len(),
    ensures
        r1.take(i + 1) == r2.take(i + 1),
    decreases i,
{
    if i > 0 {
        lemma_ranking_prefix(items, n, r1, r2, i - 1);
    }
    assert(r1.take(i) == r2.take(i)) by {
        if i > 0 {
            assert(r1.take(i) == r1.take(i - 1 + 1));
        } else {
            assert(r1.take(0) =~= r2.take(0));
        }
    }
    assert(is_next(items, r1.take(i), r1[i] as int));
    assert(is_next(items, r2.take(i), r2[i] as int));
    if r1[i] != r2[i] {
        assert(ahead(items, r1[i] as int, r2[i] as int));
        assert(ahead(items, r2[i] as int, r1[i] as int));
    }
    assert(r1.take(i + 1) =~= r1.take(i).push(r1[i]));
    assert(r2.take(i + 1) =~= r2.take(i).push(r2[i]));
}

} // verus!
