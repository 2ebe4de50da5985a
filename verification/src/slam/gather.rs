//! Collecting the map points that a set of keyframes observes.
use super::frontend::RELOC_MAX_PTS;
use vstd::prelude::*;

verus! {

/// The candidates, each followed by the first `limit` of its covisible
/// keyframes.
pub open spec fn expansion(cands: Seq<u32>, covis: Seq<Seq<u32>>, limit: int, n: nat) -> Seq<u32>
    decreases n,
{
    if n == 0 {
        Seq::empty()
    } else {
        let near = covis[n - 1];
        expansion(cands, covis, limit, (n - 1) as nat).push(cands[n - 1]) + near.take(
            if near.len() < limit {
                near.len() as int
            } else {
                limit
            },
        )
    }
}

/// Views of the covisibility lists.
pub open spec fn views(lists: Seq<Vec<u32>>) -> Seq<Seq<u32>> {
    Seq::new(lists.len(), |i: int| lists[i]@)
}

/// Lists the keyframes to consult: each candidate, then up to `limit` of its
/// covisible neighbours, in order.
pub fn expand_candidates(cands: &[u32], covis: &[Vec<u32>], limit: usize) -> (r: Vec<u32>)
    requires
        covis@.len() == cands@.len(),
    ensures
        r@ == expansion(cands@, views(covis@), limit as int, cands@.len()),
{
    let mut out: Vec<u32> = Vec::new();
    let mut n: usize = 0;
    while n < cands.len()
        invariant
            n <= cands@.len(),
            covis@.len() == cands@.len(),
            out@ == expansion(cands@, views(covis@), limit as int, n as nat),
        decreases cands@.len() - n,
    {
        out.push(cands[n]);
        let ghost head = out@;
        let near: &Vec<u32> = &covis[n];
        let mut k: usize = 0;
        while k < limit && k < near.len()
            invariant
                k <= limit,
                k <= near@.len(),
                out@ == head + near@.take(k as int),
            decreases near@.len() - k,
        {
            out.push(near[k]);
            k = k + 1;
            assert(near@.take(k as int) =~= near@.take(k - 1).push(near@[k - 1]));
        }
        n = n + 1;
    }
    out
}

/// The points that the first `n` observed ids give: each alive point at its
/// first mention, until `limit` are there.
pub open spec fn gathered(ids: Seq<u32>, alive: Seq<bool>, limit: int, n: nat) -> Seq<u32>
    decreases n,
{
    if n == 0 {
        Seq::empty()
    } else {
        let before = gathered(ids, alive, limit, (n - 1) as nat);
        if before.len() < limit && alive[ids[n - 1] as int] && !ids.take(n - 1).contains(ids[n - 1]) {
            before.push(ids[n - 1])
        } else {
            before
        }
    }
}

/// Gathers distinct alive map points, in order of first observation, at most
/// `limit` of them. `ids` are the observed point ids of the consulted
/// keyframes one after the other; `alive[id]` tells whether a point exists.
pub fn gather_points(ids: &[u32], alive: &[bool], limit: usize) -> (r: Vec<u32>)
    requires
        forall|k: int| 0 <= k < ids@.len() ==> (#[trigger] ids@[k]) < alive@.len(),
    ensures
        r@ == gathered(ids@, alive@, limit as int, ids@.len()),
{
    let mut seen: Vec<bool> = vec![false; alive.len()];
    let mut out: Vec<u32> = Vec::new();
    let mut n: usize = 0;
    while n < ids.len()
        invariant
            n <= ids@.len(),
            forall|k: int| 0 <= k < ids@.len() ==> (#[trigger] ids@[k]) < alive@.len(),
            seen@.len() == alive@.len(),
            forall|i: int|
                0 <= i < seen@.len() ==> #[trigger] seen@[i] == seen_before(ids@, n as int, i),
            out@ == gathered(ids@, alive@, limit as int, n as nat),
        decreases ids@.len() - n,
    {
        let id: u32 = ids[n];
        assert(ids@[n as int] < alive@.len());
        proof {
            lemma_contains(ids@, n as int, id);
        }
        if !seen[id as usize] {
            if out.len() < limit && alive[id as usize] {
                out.push(id);
            }
        }
        let ghost was = seen@;
        seen.set(id as usize, true);
        assert forall|i: int| 0 <= i < seen@.len() implies #[trigger] seen@[i] == seen_before(
            ids@,
            n + 1,
            i,
        ) by {
            if i == id {
                assert(ids@[n as int] == i);
            } else {
                assert(was[i] == seen_before(ids@, n as int, i));
                if seen_before(ids@, n as int, i) {
                    let k = choose|k: int| 0 <= k < n && #[trigger] ids@[k] == i;
                    assert(ids@[k] == i);
                }
            }
        }
        n = n + 1;
    }
    out
}

/// The map points to recover a lost track from: those that the consulted keyframes
/// observe, or, where no place looks like the frame, the whole map; in either case
/// at most 1500, the first ones.
pub open spec fn reloc_choice(
    any_place: bool,
    observed: Seq<u32>,
    alive: Seq<bool>,
    all: Seq<u32>,
) -> Seq<u32> {
    if any_place {
        gathered(observed, alive, RELOC_MAX_PTS as int, observed.len())
    } else if all.len() <= RELOC_MAX_PTS {
        all
    } else {
        all.take(RELOC_MAX_PTS as int)
    }
}

/// Chooses the map points to recover a lost track from. `observed` are the point
/// ids of the consulted keyframes one after the other, and `all` those of the
/// whole map.
pub fn reloc_points(any_place: bool, observed: &[u32], alive: &[bool], all: Vec<u32>) -> (r: Vec<
    u32,
>)
    requires
        forall|k: int| 0 <= k < observed@.len() ==> (#[trigger] observed@[k]) < alive@.len(),
    ensures
        r@ == reloc_choice(any_place, observed@, alive@, all@),
        r@.len() <= RELOC_MAX_PTS,
{
    proof {
        law_gathered_points_are_distinct(observed@, alive@, RELOC_MAX_PTS as nat, observed@.len());
    }
    if any_place {
        return gather_points(observed, alive, RELOC_MAX_PTS);
    }
    let mut all = all;
    if all.len() > RELOC_MAX_PTS {
        all.truncate(RELOC_MAX_PTS);
    }
    all
}

spec fn seen_before(ids: Seq<u32>, n: int, i: int) -> bool {
    exists|k: int| 0 <= k < n && #[trigger] ids[k] == i
}

proof fn lemma_contains(ids: Seq<u32>, n: int, id: u32)
    requires
        0 <= n <= ids.len(),
    ensures
        ids.take(n).contains(id) == seen_before(ids, n, id as int),
{
    if ids.take(n).contains(id) {
        let k = choose|k: int| 0 <= k < n && ids.take(n)[k] == id;
        assert(ids[k] == id);
    }
    if seen_before(ids, n, id as int) {
        let k = choose|k: int| 0 <= k < n && #[trigger] ids[k] == id;
        assert(ids.take(n)[k] == id);
    }
}

/// Gathering keeps no point twice, none that is gone, and no more than the
/// limit.
pub proof fn law_gathered_points_are_distinct(ids: Seq<u32>, alive: Seq<bool>, limit: nat, n: nat)
    requires
        n <= ids.len(),
    ensures
        gathered(ids, alive, limit as int, n).no_duplicates(),
        gathered(ids, alive, limit as int, n).len() <= limit,
        forall|i: int|
            0 <= i < gathered(ids, alive, limit as int, n).len() ==> alive[(#[trigger] gathered(
                ids,
                alive,
                limit as int,
                n,
            )[i]) as int] && ids.take(n as int).contains(gathered(ids, alive, limit as int, n)[i]),
    decreases n,
{
    if n > 0 {
        law_gathered_points_are_distinct(ids, alive, limit, (n - 1) as nat);
        let before = gathered(ids, alive, limit as int, (n - 1) as nat);
        let now = gathered(ids, alive, limit as int, n);
        assert forall|i: int| 0 <= i < now.len() implies alive[(#[trigger] now[i]) as int]
            && ids.take(n as int).contains(now[i]) by {
            if i < before.len() {
                assert(before[i] == now[i]);
                let k = choose|k: int|
                    0 <= k < n - 1 && #[trigger] ids.take(n - 1)[k] == before[i];
                assert(ids.take(n as int)[k] == now[i]);
            } else {
                assert(ids.take(n as int)[n - 1] == now[i]);
            }
        }
        if now.len() > before.len() {
            assert forall|i: int, j: int| 0 <= i < now.len() && 0 <= j < now.len() && i != j implies now[i]
                != now[j] by {
                if i < before.len() && j < before.len() {
                    assert(before[i] != before[j]);
                } else if i < before.len() {
                    assert(ids.take(n - 1).contains(before[i]));
                } else {
                    assert(ids.take(n - 1).contains(before[j]));
                }
            }
        }
    }
}

/// Every candidate is listed, in order, and right behind it the first of its neighbours, as
/// many as there are up to the limit; then the next candidate.
pub proof fn law_neighbours_follow_their_candidate(
    cands: Seq<u32>,
    covis: Seq<Seq<u32>>,
    limit: nat,
    k: nat,
    n: nat,
)
    requires
        k < n <= cands.len(),
        covis.len() == cands.len(),
    ensures
        ({
            let at = expansion(cands, covis, limit as int, k).len() as int;
            let all = expansion(cands, covis, limit as int, n);
            let near = covis[k as int];
            let next = expansion(cands, covis, limit as int, k + 1).len() as int;
            &&& at < all.len()
            &&& all[at] == cands[k as int]
            &&& at < next <= all.len()
            &&& all.subrange(at + 1, next) == near.take(next - at - 1)
            &&& near.len() <= limit ==> next == at + 1 + near.len()
            &&& near.len() >= limit ==> next == at + 1 + limit
        }),
        expansion(cands, covis, limit as int, 0).len() == 0,
    decreases n,
{
    if k + 1 < n {
        law_neighbours_follow_their_candidate(cands, covis, limit, k, (n - 1) as nat);
        let before = expansion(cands, covis, limit as int, (n - 1) as nat);
        let all = expansion(cands, covis, limit as int, n);
        let at = expansion(cands, covis, limit as int, k).len() as int;
        let next = expansion(cands, covis, limit as int, k + 1).len() as int;
        assert(all.subrange(at + 1, next) =~= before.subrange(at + 1, next));
    } else {
        let before = expansion(cands, covis, limit as int, k);
        let all = expansion(cands, covis, limit as int, n);
        let at = before.len() as int;
        assert(all.subrange(at + 1, all.len() as int) =~= covis[k as int].take(all.len() - at - 1));
    }
}

proof fn lemma_gathered_or_full(ids: Seq<u32>, alive: Seq<bool>, limit: nat, k: int, n: nat)
    requires
        0 <= k < n <= ids.len(),
        alive[ids[k] as int],
    ensures
        gathered(ids, alive, limit as int, n).contains(ids[k]) || gathered(
            ids,
            alive,
            limit as int,
            n,
        ).len() >= limit,
    decreases n, 0int,
{
    let before = gathered(ids, alive, limit as int, (n - 1) as nat);
    let now = gathered(ids, alive, limit as int, n);
    if k < n - 1 {
        lemma_gathered_or_full(ids, alive, limit, k, (n - 1) as nat);
        if before.contains(ids[k]) {
            let i = choose|i: int| 0 <= i < before.len() && before[i] == ids[k];
            assert(now[i] == ids[k]);
        }
    } else if ids.take(n - 1).contains(ids[n - 1]) {
        let m = choose|m: int| 0 <= m < n - 1 && #[trigger] ids.take(n - 1)[m] == ids[n - 1];
        assert(ids[m] == ids[k]);
        lemma_gathered_or_full(ids, alive, limit, m, (n - 1) as nat);
        if before.contains(ids[k]) {
            let i = choose|i: int| 0 <= i < before.len() && before[i] == ids[k];
            assert(now[i] == ids[k]);
        }
    } else if before.len() < limit {
        assert(now[now.len() - 1] == ids[k]);
    }
}

proof fn lemma_gathered_grows(ids: Seq<u32>, alive: Seq<bool>, limit: int, m: nat, n: nat)
    requires
        m <= n <= ids.len(),
    ensures
        gathered(ids, alive, limit, m).len() <= gathered(ids, alive, limit, n).len(),
        forall|i: int|
            0 <= i < gathered(ids, alive, limit, m).len() ==> #[trigger] gathered(
                ids,
                alive,
                limit,
                m,
            )[i] == gathered(ids, alive, limit, n)[i],
    decreases n,
{
    if m < n {
        lemma_gathered_grows(ids, alive, limit, m, (n - 1) as nat);
    }
}

/// No living point is left out while there is room, and those observed earlier come first:
/// what the first `m` ids give is the beginning of what all of them give.
pub proof fn law_gathering_takes_all_there_is_room_for(
    ids: Seq<u32>,
    alive: Seq<bool>,
    limit: nat,
    k: int,
    m: nat,
)
    requires
        0 <= k < ids.len(),
        m <= ids.len(),
        alive[ids[k] as int],
    ensures
        ({
            let all = gathered(ids, alive, limit as int, ids.len());
            let first = gathered(ids, alive, limit as int, m);
            &&& all.contains(ids[k]) || all.len() >= limit
            &&& first.len() <= all.len()
            &&& first == all.take(first.len() as int)
        }),
{
    lemma_gathered_or_full(ids, alive, limit, k, ids.len());
    lemma_gathered_grows(ids, alive, limit as int, m, ids.len());
    let all = gathered(ids, alive, limit as int, ids.len());
    let first = gathered(ids, alive, limit as int, m);
    assert(first =~= all.take(first.len() as int));
}

/// A recovery looks at no more than 1500 points. Without a place that looks like the frame
/// they are the first ones of the whole map; with one, no living point that was observed
/// is left out below that number, and none that was not observed is in.
pub proof fn law_recovery_points(
    observed: Seq<u32>,
    alive: Seq<bool>,
    all: Seq<u32>,
    k: int,
)
    requires
        0 <= k < observed.len(),
        alive[observed[k] as int],
    ensures
        ({
            let with = reloc_choice(true, observed, alive, all);
            let without = reloc_choice(false, observed, alive, all);
            &&& with.len() <= 1500 && without.len() <= 1500
            &&& with.len() < 1500 ==> with.contains(observed[k])
            &&& forall|i: int|
                0 <= i < with.len() ==> observed.contains(#[trigger] with[i])
                    && alive[with[i] as int]
            &&& all.len() <= 1500 ==> without == all
            &&& all.len() >= 1500 ==> without == all.take(1500)
        }),
{
    lemma_gathered_or_full(observed, alive, 1500, k, observed.len());
    law_gathered_points_are_distinct(observed, alive, 1500, observed.len());
    assert(observed.take(observed.len() as int) =~= observed);
    assert(all.len() == 1500 ==> all.take(1500) =~= all);
}

} // verus!
