//! Binding detected features to map points.
use vstd::prelude::*;

verus! {

/// Number of true flags among the first `n`.
pub open spec fn true_count(flags: Seq<bool>, n: nat) -> nat
    decreases n,
{
    if n == 0 {
        0
    } else {
        true_count(flags, (n - 1) as nat) + if flags[n - 1] {
            1nat
        } else {
            0nat
        }
    }
}

proof fn lemma_true_count(flags: Seq<bool>, n: nat)
    ensures
        true_count(flags, n) <= n,
    decreases n,
{
    if n > 0 {
        lemma_true_count(flags, (n - 1) as nat);
    }
}

/// For each flag that is set, how many set ones stand before it: the place of
/// that pair's point in a list that holds the points of the inliers only.
pub fn inlier_ranks(inliers: &[bool]) -> (r: Vec<Option<usize>>)
    ensures
        r@.len() == inliers@.len(),
        forall|k: int|
            0 <= k < r@.len() ==> match #[trigger] r@[k] {
                Some(n) => inliers@[k] && n == true_count(inliers@, k as nat),
                None => !inliers@[k],
            },
{
    let mut out: Vec<Option<usize>> = Vec::new();
    let mut seen: usize = 0;
    let mut k: usize = 0;
    while k < inliers.len()
        invariant
            k <= inliers@.len(),
            seen == true_count(inliers@, k as nat),
            seen <= k,
            out@.len() == k,
            forall|m: int|
                0 <= m < k ==> match #[trigger] out@[m] {
                    Some(n) => inliers@[m] && n == true_count(inliers@, m as nat),
                    None => !inliers@[m],
                },
        decreases inliers@.len() - k,
    {
        if inliers[k] {
            out.push(Some(seen));
            seen = seen + 1;
        } else {
            out.push(None);
        }
        k = k + 1;
    }
    out
}

/// The map point of each inlier pair; `ids` are the map points that the first
/// halves of the pairs index.
pub fn inlier_points(pairs: &[(u32, u32)], inliers: &[bool], ids: &[u32]) -> (r: Vec<Option<u32>>)
    requires
        inliers@.len() == pairs@.len(),
        forall|k: int| 0 <= k < pairs@.len() ==> (#[trigger] pairs@[k]).0 < ids@.len(),
    ensures
        r@.len() == pairs@.len(),
        forall|k: int|
            0 <= k < r@.len() ==> #[trigger] r@[k] == (if inliers@[k] {
                Some(ids@[pairs@[k].0 as int])
            } else {
                None
            }),
{
    let mut out: Vec<Option<u32>> = Vec::new();
    let mut k: usize = 0;
    while k < pairs.len()
        invariant
            k <= pairs@.len(),
            inliers@.len() == pairs@.len(),
            forall|m: int| 0 <= m < pairs@.len() ==> (#[trigger] pairs@[m]).0 < ids@.len(),
            out@.len() == k,
            forall|m: int|
                0 <= m < k ==> #[trigger] out@[m] == (if inliers@[m] {
                    Some(ids@[pairs@[m].0 as int])
                } else {
                    None
                }),
        decreases pairs@.len() - k,
    {
        let i: u32 = pairs[k].0;
        assert(pairs@[k as int].0 < ids@.len());
        out.push(
            if inliers[k] {
                Some(ids[i as usize])
            } else {
                None
            },
        );
        k = k + 1;
    }
    out
}

/// Index `i` is that of pair `k` on the chosen side.
pub open spec fn side_of(pair: (u32, u32), second: bool) -> u32 {
    if second {
        pair.1
    } else {
        pair.0
    }
}

/// The binding of feature `i` after the first `n` pairs: the point of the last
/// pair with a point that names the feature.
pub open spec fn bound_to(
    pairs: Seq<(u32, u32)>,
    pids: Seq<Option<u32>>,
    second: bool,
    n: nat,
    i: int,
) -> Option<u32>
    decreases n,
{
    if n == 0 {
        None
    } else if pids[n - 1] is Some && side_of(pairs[n - 1], second) == i {
        pids[n - 1]
    } else {
        bound_to(pairs, pids, second, (n - 1) as nat, i)
    }
}

/// Number of points among the first `n`.
pub open spec fn some_count(pids: Seq<Option<u32>>, n: nat) -> nat
    decreases n,
{
    if n == 0 {
        0
    } else {
        some_count(pids, (n - 1) as nat) + if pids[n - 1] is Some {
            1nat
        } else {
            0nat
        }
    }
}

/// Feature bindings of one frame: for each of its `n_features` features the map
/// point that the pairs bind it to, on the first or the second side of the
/// pairs. Returns them with the number of points bound.
pub fn bind_features(
    pairs: &[(u32, u32)],
    pids: &[Option<u32>],
    second: bool,
    n_features: usize,
) -> (r: (Vec<Option<u32>>, usize))
    requires
        pids@.len() == pairs@.len(),
        forall|k: int|
            0 <= k < pairs@.len() ==> side_of(#[trigger] pairs@[k], second) < n_features,
    ensures
        r.0@.len() == n_features,
        forall|i: int|
            0 <= i < n_features ==> #[trigger] r.0@[i] == bound_to(
                pairs@,
                pids@,
                second,
                pairs@.len(),
                i,
            ),
        r.1 == some_count(pids@, pids@.len()),
{
    let mut assigned: Vec<Option<u32>> = Vec::new();
    let mut f: usize = 0;
    while f < n_features
        invariant
            f <= n_features,
            assigned@.len() == f,
            forall|i: int| 0 <= i < f ==> #[trigger] assigned@[i] == None::<u32>,
        decreases n_features - f,
    {
        assigned.push(None);
        f = f + 1;
    }
    let mut n: usize = 0;
    let mut k: usize = 0;
    while k < pairs.len()
        invariant
            k <= pairs@.len(),
            pids@.len() == pairs@.len(),
            forall|m: int|
                0 <= m < pairs@.len() ==> side_of(#[trigger] pairs@[m], second) < n_features,
            assigned@.len() == n_features,
            forall|i: int|
                0 <= i < n_features ==> #[trigger] assigned@[i] == bound_to(
                    pairs@,
                    pids@,
                    second,
                    k as nat,
                    i,
                ),
            n == some_count(pids@, k as nat),
            n <= k,
        decreases pairs@.len() - k,
    {
        let pair: (u32, u32) = pairs[k];
        assert(side_of(pairs@[k as int], second) < n_features);
        if let Some(pid) = pids[k] {
            let i: u32 = if second {
                pair.1
            } else {
                pair.0
            };
            assigned.set(i as usize, Some(pid));
            n = n + 1;
        }
        k = k + 1;
    }
    (assigned, n)
}

/// Where no feature is named twice, each pair with a point binds its feature to
/// that point, and a feature that no such pair names stays free.
pub proof fn law_binding_of_distinct_pairs(
    pairs: Seq<(u32, u32)>,
    pids: Seq<Option<u32>>,
    second: bool,
    n: nat,
    i: int,
)
    requires
        pids.len() == pairs.len(),
        n <= pairs.len(),
        forall|k: int, l: int|
            0 <= k < l < pairs.len() ==> side_of(#[trigger] pairs[k], second) != side_of(
                #[trigger] pairs[l],
                second,
            ),
    ensures
        forall|k: int|
            0 <= k < n && side_of(#[trigger] pairs[k], second) == i ==> bound_to(
                pairs,
                pids,
                second,
                n,
                i,
            ) == pids[k],
        (forall|k: int| 0 <= k < n && pids[k] is Some ==> side_of(#[trigger] pairs[k], second) != i)
            ==> bound_to(pairs, pids, second, n, i) is None,
    decreases n,
{
    if n > 0 {
        law_binding_of_distinct_pairs(pairs, pids, second, (n - 1) as nat, i);
        assert forall|k: int| 0 <= k < n && side_of(#[trigger] pairs[k], second) == i implies bound_to(
            pairs,
            pids,
            second,
            n,
            i,
        ) == pids[k] by {
            if k == n - 1 && pids[k] is None {
                assert forall|l: int| 0 <= l < n - 1 && pids[l] is Some implies side_of(
                    #[trigger] pairs[l],
                    second,
                ) != i by {
                    assert(side_of(pairs[l], second) != side_of(pairs[k], second));
                }
            }
        }
        if forall|k: int|
            0 <= k < n && pids[k] is Some ==> side_of(#[trigger] pairs[k], second) != i {
            assert(pids[n - 1] is Some ==> side_of(pairs[n - 1], second) != i);
        }
    }
}

/// Ranks number the set flags from 0 on without a gap: the first set flag has rank 0, and
/// two set flags with none between them have ranks that follow each other.
pub proof fn law_ranks_count_up(flags: Seq<bool>, k: nat, l: nat)
    requires
        k < l <= flags.len(),
        forall|i: int| k < i < l ==> !#[trigger] flags[i],
    ensures
        flags[k as int] ==> true_count(flags, l) == true_count(flags, k) + 1,
        !flags[k as int] ==> true_count(flags, l) == true_count(flags, k),
        (forall|i: int| 0 <= i < k ==> !#[trigger] flags[i]) ==> true_count(flags, k) == 0,
    decreases l,
{
    if l > k + 1 {
        law_ranks_count_up(flags, k, (l - 1) as nat);
        assert(!flags[l - 1]);
    }
    if forall|i: int| 0 <= i < k ==> !#[trigger] flags[i] {
        lemma_none_set(flags, k);
    }
}

proof fn lemma_none_set(flags: Seq<bool>, n: nat)
    requires
        forall|i: int| 0 <= i < n ==> !#[trigger] flags[i],
    ensures
        true_count(flags, n) == 0,
    decreases n,
{
    if n > 0 {
        lemma_none_set(flags, (n - 1) as nat);
        assert(!flags[n - 1]);
    }
}

/// The first side of a pair is that of its first index and the second that of its second.
/// Where several pairs with a point name a feature, the last of them binds it.
pub proof fn law_last_pair_binds(
    pairs: Seq<(u32, u32)>,
    pids: Seq<Option<u32>>,
    second: bool,
    k: int,
    n: nat,
)
    requires
        pids.len() == pairs.len(),
        0 <= k < n <= pairs.len(),
        pids[k] is Some,
        forall|l: int|
            k < l < n && pids[l] is Some ==> side_of(#[trigger] pairs[l], second) != side_of(
                pairs[k],
                second,
            ),
    ensures
        !second ==> bound_to(pairs, pids, second, n, pairs[k].0 as int) == pids[k],
        second ==> bound_to(pairs, pids, second, n, pairs[k].1 as int) == pids[k],
    decreases n,
{
    if k < n - 1 {
        law_last_pair_binds(pairs, pids, second, k, (n - 1) as nat);
        let last = pairs[n - 1];
        assert(pids[n - 1] is Some ==> side_of(last, second) != side_of(pairs[k], second));
    }
}

/// Each pair with a point counts for one, and a pair without one for nothing.
pub proof fn law_points_are_counted(pids: Seq<Option<u32>>, i: int, p: u32)
    requires
        0 <= i < pids.len(),
        pids[i] is None,
    ensures
        some_count(pids.update(i, Some(p)), pids.len()) == some_count(pids, pids.len()) + 1,
        (forall|k: int| 0 <= k < pids.len() ==> (#[trigger] pids[k]) is None) ==> some_count(
            pids,
            pids.len(),
        ) == 0,
{
    lemma_one_more_point(pids, i, p, pids.len());
    if forall|k: int| 0 <= k < pids.len() ==> (#[trigger] pids[k]) is None {
        lemma_no_point(pids, pids.len());
    }
}

proof fn lemma_one_more_point(pids: Seq<Option<u32>>, i: int, p: u32, n: nat)
    requires
        0 <= i < pids.len(),
        pids[i] is None,
        n <= pids.len(),
    ensures
        some_count(pids.update(i, Some(p)), n) == some_count(pids, n) + if i < n {
            1int
        } else {
            0
        },
    decreases n,
{
    if n > 0 {
        lemma_one_more_point(pids, i, p, (n - 1) as nat);
    }
}

proof fn lemma_no_point(pids: Seq<Option<u32>>, n: nat)
    requires
        n <= pids.len(),
        forall|k: int| 0 <= k < pids.len() ==> (#[trigger] pids[k]) is None,
    ensures
        some_count(pids, n) == 0,
    decreases n,
{
    if n > 0 {
        lemma_no_point(pids, (n - 1) as nat);
        assert(pids[n - 1] is None);
    }
}

} // verus!
