//! Decisions of the local mapper: which keyframes keep raw features, which
//! pairs may become new points, and the gates and graph of loop closing.
use super::brief::{match_descriptors, matched, matches_of, Descriptor};
use super::frontend::supported;
use vstd::prelude::*;

verus! {

/// Keyframes that keep raw features; older ones are no longer matched for new
/// points.
pub const RAW_FEAT_KFS: usize = 12;

/// Covisible keyframes pulled into the local adjustment window.
pub const LOCAL_BA_K: usize = 6;

pub const LOCAL_BA_ITERS: usize = 5;

/// A loop candidate must be at least this many keyframes older.
pub const LOOP_MIN_GAP: u32 = 15;

/// Covisible neighbours pooled for verification.
pub const LOOP_COVIS: usize = 5;

/// Points, matches and inliers that a loop needs.
pub const LOOP_MIN_INLIERS: usize = 20;

/// Covisibility edges per keyframe in the pose graph.
pub const LOOP_COVIS_EDGES: usize = 5;

/// Raw features of a keyframe: keypoints, aligned descriptors, and for each the
/// map point it is bound to.
#[derive(Debug)]
pub struct RawKf {
    pub kf_id: u32,
    pub pts: Vec<(u16, u16)>,
    pub descs: Vec<Descriptor>,
    pub assigned: Vec<Option<u32>>,
}

impl RawKf {
    pub open spec fn aligned(&self) -> bool {
        &&& self.pts@.len() == self.descs@.len() <= u32::MAX
        &&& self.assigned@.len() == self.descs@.len()
    }
}

/// Raw features of recent keyframes, kept by keyframe id, and the ids in order of
/// arrival. An id may arrive again after the map was discarded: its features are
/// then replaced, and both arrivals count.
#[derive(Debug)]
pub struct RawStore {
    pub kfs: Vec<RawKf>,
    pub recent: Vec<u32>,
}

/// A keyframe of the pose graph.
#[derive(Debug)]
pub struct KfNode {
    pub id: u32,
    pub parent: Option<u32>,
    /// Covisible keyframes, strongest first.
    pub covis: Vec<u32>,
}

/// An edge of the pose graph.
#[derive(Debug, Clone, Copy, PartialEq, Eq, Structural)]
pub struct GraphEdge {
    pub i: u32,
    pub j: u32,
    /// The loop itself, rather than a rigid connection.
    pub is_loop: bool,
}

impl RawStore {
    /// At most 12 arrivals, features kept only of those, under one entry each.
    pub open spec fn wf(&self) -> bool {
        &&& self.recent@.len() <= RAW_FEAT_KFS
        &&& forall|i: int| 0 <= i < self.kfs@.len() ==> (#[trigger] self.kfs@[i]).aligned()
        &&& forall|i: int|
            0 <= i < self.kfs@.len() ==> self.recent@.contains((#[trigger] self.kfs@[i]).kf_id)
        &&& distinct(self.kfs@)
    }

    /// The keyframe has raw features here.
    pub open spec fn holds(&self, kf: u32) -> bool {
        listed(self.kfs@, kf)
    }

    /// The raw features by keyframe id.
    pub open spec fn contents(&self) -> Map<u32, RawKf> {
        by_id(self.kfs@)
    }

    pub fn new() -> (r: Self)
        ensures
            r.wf(),
            r.kfs@.len() == 0,
            r.recent@.len() == 0,
            r.contents() == Map::<u32, RawKf>::empty(),
    {
        let r = RawStore { kfs: Vec::new(), recent: Vec::new() };
        assert(r.contents() =~= Map::<u32, RawKf>::empty());
        r
    }

    /// Takes in a keyframe; beyond 12 arrivals the oldest one's features go.
    pub fn ingest(&mut self, job: RawKf)
        requires
            old(self).wf(),
            job.aligned(),
        ensures
            final(self).wf(),
            final(self).recent@ == arrivals(old(self).recent@, job.kf_id),
            final(self).contents() == stored(old(self).contents(), old(self).recent@, job),
    {
        let id: u32 = job.kf_id;
        let ghost before = self.kfs@;
        match self.find(id) {
            Some(i) => {
                self.kfs.set(i, job);
                proof {
                    lemma_replaced(before, i as int, job);
                }
            },
            None => {
                self.kfs.push(job);
                proof {
                    lemma_pushed(before, job);
                }
            },
        }
        let ghost inserted = self.kfs@;
        self.recent.push(id);
        proof {
            let was = old(self).recent@;
            assert(self.recent@[was.len() as int] == id);
            assert forall|i: int| 0 <= i < inserted.len() implies self.recent@.contains(
                (#[trigger] inserted[i]).kf_id,
            ) by {
                if inserted[i].kf_id != id {
                    assert(before[i] == inserted[i]);
                    assert(was.contains(before[i].kf_id));
                    let k = choose|k: int| 0 <= k < was.len() && was[k] == before[i].kf_id;
                    assert(self.recent@[k] == before[i].kf_id);
                }
            }
        }
        if self.recent.len() > RAW_FEAT_KFS {
            let ghost all = self.recent@;
            let gone: u32 = self.recent.remove(0);
            assert(self.recent@ =~= all.drop_first());
            match self.find(gone) {
                Some(i) => {
                    let _ = self.kfs.remove(i);
                    proof {
                        lemma_removed(inserted, i as int);
                    }
                },
                None => {
                    assert(by_id(inserted) =~= by_id(inserted).remove(gone));
                },
            }
            proof {
                assert forall|i: int| 0 <= i < self.kfs@.len() implies self.recent@.contains(
                    (#[trigger] self.kfs@[i]).kf_id,
                ) by {
                    let id_i = self.kfs@[i].kf_id;
                    assert(listed(inserted, id_i) && id_i != gone);
                    let k = choose|k: int|
                        0 <= k < inserted.len() && (#[trigger] inserted[k]).kf_id == id_i;
                    assert(all.contains(inserted[k].kf_id));
                    let m = choose|m: int| 0 <= m < all.len() && all[m] == id_i;
                    assert(self.recent@[m - 1] == id_i);
                }
            }
        }
    }

    /// The most recent keyframe, where its features are still here.
    pub fn latest(&self) -> (r: Option<u32>)
        ensures
            r == (if self.recent@.len() > 0 && self.holds(self.recent@.last()) {
                Some(self.recent@.last())
            } else {
                None
            }),
    {
        if self.recent.len() == 0 {
            return None;
        }
        let kf: u32 = self.recent[self.recent.len() - 1];
        match self.find(kf) {
            Some(i) => {
                assert(self.kfs@[i as int].kf_id == kf);
                Some(kf)
            },
            None => None,
        }
    }

    /// Position of a keyframe.
    pub fn find(&self, kf: u32) -> (r: Option<usize>)
        ensures
            match r {
                Some(i) => i < self.kfs@.len() && self.kfs@[i as int].kf_id == kf,
                None => !self.holds(kf),
            },
    {
        let mut i: usize = 0;
        while i < self.kfs.len()
            invariant
                i <= self.kfs@.len(),
                forall|k: int| 0 <= k < i ==> (#[trigger] self.kfs@[k]).kf_id != kf,
            decreases self.kfs@.len() - i,
        {
            if self.kfs[i].kf_id == kf {
                return Some(i);
            }
            i = i + 1;
        }
        None
    }

    /// Matched feature pairs of keyframes at positions `a` and `b` of which
    /// neither feature is bound to a map point yet.
    pub fn open_pairs(&self, a: usize, b: usize) -> (r: Vec<(u32, u32)>)
        requires
            self.wf(),
            a < self.kfs@.len(),
            b < self.kfs@.len(),
        ensures
            r@ == unbound(
                matches_of(self.kfs@[a as int].descs@, self.kfs@[b as int].descs@),
                self.kfs@[a as int].assigned@,
                self.kfs@[b as int].assigned@,
                matches_of(self.kfs@[a as int].descs@, self.kfs@[b as int].descs@).len(),
            ),
    {
        let (ka, kb): (&RawKf, &RawKf) = (&self.kfs[a], &self.kfs[b]);
        assert(self.kfs@[a as int].aligned() && self.kfs@[b as int].aligned());
        let pairs: Vec<(u32, u32)> = match_descriptors(ka.descs.as_slice(), kb.descs.as_slice());
        let mut out: Vec<(u32, u32)> = Vec::new();
        let mut k: usize = 0;
        while k < pairs.len()
            invariant
                k <= pairs@.len(),
                ka.aligned(),
                kb.aligned(),
                forall|m: int|
                    0 <= m < pairs@.len() ==> matched(
                        ka.descs@,
                        kb.descs@,
                        (#[trigger] pairs@[m]).0 as int,
                        pairs@[m].1 as int,
                    ),
                out@ == unbound(pairs@, ka.assigned@, kb.assigned@, k as nat),
            decreases pairs@.len() - k,
        {
            let (i, j): (u32, u32) = pairs[k];
            assert(matched(
                ka.descs@,
                kb.descs@,
                pairs@[k as int].0 as int,
                pairs@[k as int].1 as int,
            ));
            if ka.assigned[i as usize].is_none() && kb.assigned[j as usize].is_none() {
                out.push((i, j));
            }
            k = k + 1;
        }
        out
    }

    /// Binds feature `i` of the keyframe at position `a` to a map point.
    pub fn bind(&mut self, a: usize, i: usize, pid: u32)
        requires
            old(self).wf(),
            a < old(self).kfs@.len(),
            i < old(self).kfs@[a as int].assigned@.len(),
        ensures
            final(self).wf(),
            final(self).recent@ == old(self).recent@,
            final(self).kfs@.len() == old(self).kfs@.len(),
            forall|k: int|
                0 <= k < old(self).kfs@.len() && k != a ==> #[trigger] final(self).kfs@[k] == old(self).kfs@[k],
            final(self).kfs@[a as int].kf_id == old(self).kfs@[a as int].kf_id,
            final(self).kfs@[a as int].pts@ == old(self).kfs@[a as int].pts@,
            final(self).kfs@[a as int].descs@ == old(self).kfs@[a as int].descs@,
            final(self).kfs@[a as int].assigned@ == old(self).kfs@[a as int].assigned@.update(
                i as int,
                Some(pid),
            ),
    {
        let ghost before = self.kfs@;
        assert(before[a as int].aligned());
        self.kfs[a].assigned[i] = Some(pid);
        assert forall|k: int| 0 <= k < self.kfs@.len() implies (#[trigger] self.kfs@[k]).aligned()
            && self.kfs@[k].kf_id == before[k].kf_id && self.recent@.contains(self.kfs@[k].kf_id) by {
            assert(before[k].aligned());
        }
        assert forall|k: int, l: int| 0 <= k < l < self.kfs@.len() implies (
        #[trigger] self.kfs@[k]).kf_id != (#[trigger] self.kfs@[l]).kf_id by {
            assert(before[k].kf_id != before[l].kf_id);
        }
    }
}

/// No keyframe id twice.
pub open spec fn distinct(kfs: Seq<RawKf>) -> bool {
    forall|i: int, j: int|
        0 <= i < j < kfs.len() ==> (#[trigger] kfs[i]).kf_id != (#[trigger] kfs[j]).kf_id
}

/// A keyframe with this id is among them.
pub open spec fn listed(kfs: Seq<RawKf>, kf: u32) -> bool {
    exists|i: int| 0 <= i < kfs.len() && (#[trigger] kfs[i]).kf_id == kf
}

/// The keyframes by id.
pub open spec fn by_id(kfs: Seq<RawKf>) -> Map<u32, RawKf> {
    Map::new(
        |kf: u32| listed(kfs, kf),
        |kf: u32| kfs[choose|i: int| 0 <= i < kfs.len() && (#[trigger] kfs[i]).kf_id == kf],
    )
}

/// The last 12 arrivals after one more.
pub open spec fn arrivals(recent: Seq<u32>, id: u32) -> Seq<u32> {
    if recent.len() < RAW_FEAT_KFS {
        recent.push(id)
    } else {
        recent.push(id).drop_first()
    }
}

/// The kept features after a keyframe came in: its own are put in, and those of
/// the arrival that drops out are taken away.
pub open spec fn stored(kept: Map<u32, RawKf>, recent: Seq<u32>, job: RawKf) -> Map<u32, RawKf> {
    let put = kept.insert(job.kf_id, job);
    if recent.len() < RAW_FEAT_KFS {
        put
    } else {
        put.remove(recent[0])
    }
}

proof fn lemma_entry(kfs: Seq<RawKf>, i: int)
    requires
        distinct(kfs),
        0 <= i < kfs.len(),
    ensures
        by_id(kfs).dom().contains(kfs[i].kf_id),
        by_id(kfs)[kfs[i].kf_id] == kfs[i],
{
    let kf = kfs[i].kf_id;
    assert(listed(kfs, kf));
    let k = choose|k: int| 0 <= k < kfs.len() && (#[trigger] kfs[k]).kf_id == kf;
    assert(k == i);
}

proof fn lemma_replaced(kfs: Seq<RawKf>, i: int, job: RawKf)
    requires
        distinct(kfs),
        0 <= i < kfs.len(),
        kfs[i].kf_id == job.kf_id,
    ensures
        distinct(kfs.update(i, job)),
        by_id(kfs.update(i, job)) == by_id(kfs).insert(job.kf_id, job),
{
    let now = kfs.update(i, job);
    assert forall|a: int, b: int| 0 <= a < b < now.len() implies (#[trigger] now[a]).kf_id != (
    #[trigger] now[b]).kf_id by {
        assert(kfs[a].kf_id != kfs[b].kf_id);
    }
    assert forall|kf: u32| #[trigger] listed(now, kf) == (listed(kfs, kf) || kf == job.kf_id) by {
        if listed(now, kf) {
            let k = choose|k: int| 0 <= k < now.len() && (#[trigger] now[k]).kf_id == kf;
            assert(kfs[k].kf_id == kf);
        }
        if listed(kfs, kf) {
            let k = choose|k: int| 0 <= k < kfs.len() && (#[trigger] kfs[k]).kf_id == kf;
            assert(now[k].kf_id == kf);
        }
        assert(now[i].kf_id == job.kf_id);
    }
    assert forall|kf: u32| listed(now, kf) implies #[trigger] by_id(now)[kf] == by_id(kfs).insert(
        job.kf_id,
        job,
    )[kf] by {
        let k = choose|k: int| 0 <= k < now.len() && (#[trigger] now[k]).kf_id == kf;
        lemma_entry(now, k);
        lemma_entry(kfs, k);
        lemma_entry(now, i);
    }
    assert(by_id(now) =~= by_id(kfs).insert(job.kf_id, job));
}

proof fn lemma_pushed(kfs: Seq<RawKf>, job: RawKf)
    requires
        distinct(kfs),
        !listed(kfs, job.kf_id),
    ensures
        distinct(kfs.push(job)),
        by_id(kfs.push(job)) == by_id(kfs).insert(job.kf_id, job),
{
    let now = kfs.push(job);
    assert forall|a: int, b: int| 0 <= a < b < now.len() implies (#[trigger] now[a]).kf_id != (
    #[trigger] now[b]).kf_id by {
        assert(kfs[a] == now[a]);
        if b < kfs.len() {
            assert(kfs[b] == now[b]);
        }
    }
    assert forall|kf: u32| #[trigger] listed(now, kf) == (listed(kfs, kf) || kf == job.kf_id) by {
        if listed(now, kf) {
            let k = choose|k: int| 0 <= k < now.len() && (#[trigger] now[k]).kf_id == kf;
            if k < kfs.len() {
                assert(kfs[k].kf_id == kf);
            }
        }
        if listed(kfs, kf) {
            let k = choose|k: int| 0 <= k < kfs.len() && (#[trigger] kfs[k]).kf_id == kf;
            assert(now[k].kf_id == kf);
        }
        assert(now[kfs.len() as int].kf_id == job.kf_id);
    }
    assert forall|kf: u32| listed(now, kf) implies #[trigger] by_id(now)[kf] == by_id(kfs).insert(
        job.kf_id,
        job,
    )[kf] by {
        let k = choose|k: int| 0 <= k < now.len() && (#[trigger] now[k]).kf_id == kf;
        lemma_entry(now, k);
        if k < kfs.len() {
            lemma_entry(kfs, k);
            assert(kfs[k] == now[k]);
        }
    }
    assert(by_id(now) =~= by_id(kfs).insert(job.kf_id, job));
}

proof fn lemma_removed(kfs: Seq<RawKf>, i: int)
    requires
        distinct(kfs),
        0 <= i < kfs.len(),
    ensures
        distinct(kfs.remove(i)),
        by_id(kfs.remove(i)) == by_id(kfs).remove(kfs[i].kf_id),
        forall|kf: u32| #[trigger]
            listed(kfs.remove(i), kf) == (listed(kfs, kf) && kf != kfs[i].kf_id),
{
    let now = kfs.remove(i);
    let gone = kfs[i].kf_id;
    assert forall|a: int, b: int| 0 <= a < b < now.len() implies (#[trigger] now[a]).kf_id != (
    #[trigger] now[b]).kf_id by {
        let oa = if a < i {
            a
        } else {
            a + 1
        };
        let ob = if b < i {
            b
        } else {
            b + 1
        };
        assert(kfs[oa] == now[a] && kfs[ob] == now[b]);
        assert(kfs[oa].kf_id != kfs[ob].kf_id);
    }
    assert forall|kf: u32| #[trigger] listed(now, kf) == (listed(kfs, kf) && kf != gone) by {
        if listed(now, kf) {
            let k = choose|k: int| 0 <= k < now.len() && (#[trigger] now[k]).kf_id == kf;
            let o = if k < i {
                k
            } else {
                k + 1
            };
            assert(kfs[o].kf_id == kf);
            if kf == gone {
                assert(kfs[o].kf_id == kfs[i].kf_id);
            }
        }
        if listed(kfs, kf) && kf != gone {
            let k = choose|k: int| 0 <= k < kfs.len() && (#[trigger] kfs[k]).kf_id == kf;
            let n = if k < i {
                k
            } else {
                k - 1
            };
            assert(now[n].kf_id == kf);
        }
    }
    assert forall|kf: u32| listed(now, kf) implies #[trigger] by_id(now)[kf] == by_id(kfs).remove(
        gone,
    )[kf] by {
        let k = choose|k: int| 0 <= k < now.len() && (#[trigger] now[k]).kf_id == kf;
        let o = if k < i {
            k
        } else {
            k + 1
        };
        assert(kfs[o] == now[k]);
        lemma_entry(now, k);
        lemma_entry(kfs, o);
    }
    assert(by_id(now) =~= by_id(kfs).remove(gone));
}

/// The store never keeps raw features of more than 12 keyframes.
pub proof fn law_raw_features_are_bounded(store: RawStore)
    requires
        store.wf(),
    ensures
        store.kfs@.len() <= RAW_FEAT_KFS,
{
    let ids = Seq::new(store.kfs@.len(), |i: int| store.kfs@[i].kf_id);
    assert(ids.no_duplicates()) by {
        assert forall|i: int, j: int| 0 <= i < ids.len() && 0 <= j < ids.len() && i != j implies ids[i]
            != ids[j] by {
            if i < j {
                assert(store.kfs@[i].kf_id != store.kfs@[j].kf_id);
            } else {
                assert(store.kfs@[j].kf_id != store.kfs@[i].kf_id);
            }
        }
    }
    ids.unique_seq_to_set();
    store.recent@.lemma_cardinality_of_set();
    assert(ids.to_set().subset_of(store.recent@.to_set())) by {
        assert forall|id: u32| ids.to_set().contains(id) implies store.recent@.to_set().contains(
            id,
        ) by {
            let i = choose|i: int| 0 <= i < ids.len() && ids[i] == id;
            assert(store.recent@.contains(store.kfs@[i].kf_id));
        }
    }
    vstd::set_lib::lemma_len_subset(ids.to_set(), store.recent@.to_set());
}

/// A keyframe whose id did not arrive lately has its features kept, and those of
/// every other keyframe but the oldest arrival stay as they were.
pub proof fn law_fresh_keyframe_is_kept(kept: Map<u32, RawKf>, recent: Seq<u32>, job: RawKf, kf: u32)
    requires
        recent.len() <= RAW_FEAT_KFS,
        !recent.contains(job.kf_id),
    ensures
        stored(kept, recent, job).dom().contains(job.kf_id),
        stored(kept, recent, job)[job.kf_id] == job,
        kept.dom().contains(kf) && kf != job.kf_id && (recent.len() < RAW_FEAT_KFS || kf != recent[0])
            ==> stored(kept, recent, job).dom().contains(kf) && stored(kept, recent, job)[kf]
            == kept[kf],
{
    if recent.len() == RAW_FEAT_KFS {
        assert(recent.contains(recent[0]));
    }
}

/// The pairs among the first `n` whose features are both free.
pub open spec fn unbound(
    pairs: Seq<(u32, u32)>,
    a: Seq<Option<u32>>,
    b: Seq<Option<u32>>,
    n: nat,
) -> Seq<(u32, u32)>
    decreases n,
{
    if n == 0 {
        Seq::empty()
    } else {
        let before = unbound(pairs, a, b, (n - 1) as nat);
        if a[pairs[n - 1].0 as int] is None && b[pairs[n - 1].1 as int] is None {
            before.push(pairs[n - 1])
        } else {
            before
        }
    }
}

fn contains(list: &[u32], v: u32) -> (r: bool)
    ensures
        r == list@.contains(v),
{
    let mut i: usize = 0;
    while i < list.len()
        invariant
            i <= list@.len(),
            forall|k: int| 0 <= k < i ==> #[trigger] list@[k] != v,
        decreases list@.len() - i,
    {
        if list[i] == v {
            return true;
        }
        i = i + 1;
    }
    false
}

/// The covisible keyframes, and the parent behind them where it is not one of them.
pub open spec fn partners(covis: Seq<u32>, parent: Option<u32>) -> Seq<u32> {
    match parent {
        Some(p) => if covis.contains(p) {
            covis
        } else {
            covis.push(p)
        },
        None => covis,
    }
}

/// Keyframes to triangulate against: the covisible ones, then the parent if it
/// is not among them, as a guaranteed source of parallax.
pub fn triangulation_neighbours(covis: &[u32], parent: Option<u32>) -> (r: Vec<u32>)
    ensures
        r@ == partners(covis@, parent),
{
    let mut out: Vec<u32> = Vec::new();
    let mut i: usize = 0;
    while i < covis.len()
        invariant
            i <= covis@.len(),
            out@ == covis@.take(i as int),
        decreases covis@.len() - i,
    {
        out.push(covis[i]);
        i = i + 1;
        assert(covis@.take(i as int) =~= covis@.take(i - 1).push(covis@[i - 1]));
    }
    assert(covis@.take(i as int) =~= covis@);
    if let Some(p) = parent {
        if !contains(covis, p) {
            out.push(p);
        }
    }
    out
}

/// The keyframe to hold fixed in a local adjustment, the oldest one in the
/// window; none where the window is too small to adjust.
pub fn gauge_keyframe(window: &[u32]) -> (r: Option<u32>)
    ensures
        window@.len() < 2 ==> r is None,
        window@.len() >= 2 ==> r is Some && window@.contains(r->0) && forall|i: int|
            0 <= i < window@.len() ==> r->0 <= #[trigger] window@[i],
{
    if window.len() < 2 {
        return None;
    }
    Some(least(window))
}

fn least(ids: &[u32]) -> (r: u32)
    requires
        ids@.len() > 0,
    ensures
        ids@.contains(r),
        forall|i: int| 0 <= i < ids@.len() ==> r <= #[trigger] ids@[i],
{
    let mut best: u32 = ids[0];
    let mut i: usize = 1;
    while i < ids.len()
        invariant
            1 <= i <= ids@.len(),
            ids@.contains(best),
            forall|k: int| 0 <= k < i ==> best <= #[trigger] ids@[k],
        decreases ids@.len() - i,
    {
        if ids[i] < best {
            best = ids[i];
            assert(ids@[i as int] == best);
        }
        i = i + 1;
    }
    best
}

/// The keyframe whose correction drags a map point along: the oldest one that
/// observes it, if it is a node of the pose graph of `size` nodes.
pub fn reference_keyframe(observers: &[u32], size: usize) -> (r: Option<u32>)
    ensures
        match r {
            Some(kf) => {
                &&& kf < size
                &&& observers@.contains(kf)
                &&& forall|i: int| 0 <= i < observers@.len() ==> kf <= #[trigger] observers@[i]
            },
            None => forall|i: int| 0 <= i < observers@.len() ==> size <= #[trigger] observers@[i],
        },
{
    if observers.len() == 0 {
        return None;
    }
    let kf: u32 = least(observers);
    if (kf as usize) < size {
        Some(kf)
    } else {
        None
    }
}

// ── Loop closing ──────────────────────────────────────────────────────────────

/// A place candidate that cannot be a loop: the keyframe itself, a covisible
/// one, or one less than 15 keyframes older.
pub open spec fn not_a_loop(kf: u32, cand: u32, covis: Seq<u32>) -> bool {
    cand == kf || covis.contains(cand) || kf - cand < LOOP_MIN_GAP
}

/// Whether a place candidate is passed over in the search for loops.
pub fn skip_loop_candidate(kf: u32, cand: u32, covis: &[u32]) -> (r: bool)
    ensures
        r == not_a_loop(kf, cand, covis@),
{
    cand == kf || contains(covis, cand) || kf < cand || kf - cand < LOOP_MIN_GAP
}

/// Position of the best place candidate that may be a loop, in a list with the
/// best first.
pub fn loop_candidate(kf: u32, ranked: &[u32], covis: &[u32]) -> (r: Option<usize>)
    ensures
        match r {
            Some(i) => {
                &&& i < ranked@.len()
                &&& !not_a_loop(kf, ranked@[i as int], covis@)
                &&& forall|k: int| 0 <= k < i ==> not_a_loop(kf, #[trigger] ranked@[k], covis@)
            },
            None => forall|k: int|
                0 <= k < ranked@.len() ==> not_a_loop(kf, #[trigger] ranked@[k], covis@),
        },
{
    let mut i: usize = 0;
    while i < ranked.len()
        invariant
            i <= ranked@.len(),
            forall|k: int| 0 <= k < i ==> not_a_loop(kf, #[trigger] ranked@[k], covis@),
        decreases ranked@.len() - i,
    {
        if !skip_loop_candidate(kf, ranked[i], covis) {
            return Some(i);
        }
        i = i + 1;
    }
    None
}

/// Matches between the pooled points of a keyframe and of its loop candidate,
/// where both have enough points and enough of them match to verify the loop.
pub fn loop_pairs(kf: &[Descriptor], cand: &[Descriptor]) -> (r: Option<Vec<(u32, u32)>>)
    requires
        kf@.len() <= u32::MAX,
        cand@.len() <= u32::MAX,
    ensures
        r is Some == supported(
            kf@,
            cand@,
            LOOP_MIN_INLIERS as int,
            LOOP_MIN_INLIERS as int,
            LOOP_MIN_INLIERS as int,
        ),
        r is Some ==> r->0@ == matches_of(kf@, cand@),
        r is Some <==> kf@.len() >= 20 && cand@.len() >= 20 && matches_of(kf@, cand@).len() >= 20,
{
    if kf.len() < LOOP_MIN_INLIERS || cand.len() < LOOP_MIN_INLIERS {
        return None;
    }
    let pairs: Vec<(u32, u32)> = match_descriptors(kf, cand);
    if pairs.len() >= LOOP_MIN_INLIERS {
        Some(pairs)
    } else {
        None
    }
}

/// Edges of one keyframe: to its parent, then to its five strongest covisible
/// keyframes.
pub open spec fn node_edges(node: KfNode) -> Seq<GraphEdge> {
    let tree = match node.parent {
        Some(p) => seq![GraphEdge { i: node.id, j: p, is_loop: false }],
        None => Seq::empty(),
    };
    let near = node.covis@;
    let n = if near.len() < LOOP_COVIS_EDGES {
        near.len()
    } else {
        LOOP_COVIS_EDGES as nat
    };
    tree + Seq::new(n, |k: int| GraphEdge { i: node.id, j: near[k], is_loop: false })
}

/// Edges of the first `n` keyframes.
pub open spec fn rigid_edges(nodes: Seq<KfNode>, n: nat) -> Seq<GraphEdge>
    decreases n,
{
    if n == 0 {
        Seq::empty()
    } else {
        rigid_edges(nodes, (n - 1) as nat) + node_edges(nodes[n - 1])
    }
}

/// The pose graph for closing a loop between `kf` and `cand`: the edges of all
/// keyframes, then the loop.
pub fn essential_edges(nodes: &[KfNode], kf: u32, cand: u32) -> (r: Vec<GraphEdge>)
    ensures
        r@ == rigid_edges(nodes@, nodes@.len()).push(
            GraphEdge { i: kf, j: cand, is_loop: true },
        ),
{
    let mut out: Vec<GraphEdge> = Vec::new();
    let mut n: usize = 0;
    while n < nodes.len()
        invariant
            n <= nodes@.len(),
            out@ == rigid_edges(nodes@, n as nat),
        decreases nodes@.len() - n,
    {
        let node: &KfNode = &nodes[n];
        let ghost head = out@;
        if let Some(p) = node.parent {
            out.push(GraphEdge { i: node.id, j: p, is_loop: false });
        }
        let ghost tree = out@;
        let mut k: usize = 0;
        while k < LOOP_COVIS_EDGES && k < node.covis.len()
            invariant
                k <= LOOP_COVIS_EDGES,
                k <= node.covis@.len(),
                out@ == tree + Seq::new(
                    k as nat,
                    |m: int| GraphEdge { i: node.id, j: node.covis@[m], is_loop: false },
                ),
            decreases node.covis@.len() - k,
        {
            let ghost was = out@;
            out.push(GraphEdge { i: node.id, j: node.covis[k], is_loop: false });
            k = k + 1;
            assert(out@ =~= tree + Seq::new(
                k as nat,
                |m: int| GraphEdge { i: node.id, j: node.covis@[m], is_loop: false },
            ));
        }
        assert(out@ =~= head + node_edges(*node));
        n = n + 1;
    }
    out.push(GraphEdge { i: kf, j: cand, is_loop: true });
    out
}

/// Number of pose slots for keyframes with these ids: the highest id plus one,
/// and one where there are none.
pub fn graph_size(nodes: &[KfNode]) -> (r: usize)
    requires
        forall|i: int| 0 <= i < nodes@.len() ==> (#[trigger] nodes@[i]).id < u32::MAX,
    ensures
        r >= 1,
        forall|i: int| 0 <= i < nodes@.len() ==> (#[trigger] nodes@[i]).id < r,
        nodes@.len() == 0 ==> r == 1,
        nodes@.len() > 0 ==> exists|i: int|
            0 <= i < nodes@.len() && (#[trigger] nodes@[i]).id + 1 == r,
{
    let mut size: usize = 1;
    let mut i: usize = 0;
    while i < nodes.len()
        invariant
            i <= nodes@.len(),
            1 <= size <= u32::MAX,
            forall|k: int| 0 <= k < nodes@.len() ==> (#[trigger] nodes@[k]).id < u32::MAX,
            forall|k: int| 0 <= k < i ==> (#[trigger] nodes@[k]).id < size,
            i == 0 ==> size == 1,
            i > 0 ==> exists|k: int| 0 <= k < i && (#[trigger] nodes@[k]).id + 1 == size,
        decreases nodes@.len() - i,
    {
        let id: u32 = nodes[i].id;
        if id as usize >= size {
            size = id as usize + 1;
            assert(nodes@[i as int].id + 1 == size);
        } else if i == 0 {
            assert(nodes@[0].id + 1 == size);
        }
        i = i + 1;
    }
    size
}

// ── What is kept, and what the graph holds ────────────────────────────────────

/// Up to 12 arrivals nothing goes. With the thirteenth the oldest arrival drops out, and its
/// features with it; the others move up and the newest is last.
pub proof fn law_thirteenth_arrival_drops_the_oldest(
    kept: Map<u32, RawKf>,
    recent: Seq<u32>,
    job: RawKf,
)
    requires
        recent.len() <= 12,
    ensures
        ({
            let now = arrivals(recent, job.kf_id);
            &&& now.last() == job.kf_id
            &&& recent.len() < 12 ==> now.len() == recent.len() + 1 && recent.is_prefix_of(now)
                && stored(kept, recent, job) == kept.insert(job.kf_id, job)
            &&& recent.len() == 12 ==> now.len() == 12 && !stored(kept, recent, job).dom().contains(
                recent[0],
            ) && forall|i: int| 0 <= i < 11 ==> #[trigger] now[i] == recent[i + 1]
        }),
{
}

proof fn lemma_unbound_member(
    pairs: Seq<(u32, u32)>,
    a: Seq<Option<u32>>,
    b: Seq<Option<u32>>,
    k: int,
    n: nat,
)
    requires
        0 <= k < n <= pairs.len(),
        a[pairs[k].0 as int] is None,
        b[pairs[k].1 as int] is None,
    ensures
        unbound(pairs, a, b, n).contains(pairs[k]),
    decreases n,
{
    let before = unbound(pairs, a, b, (n - 1) as nat);
    let now = unbound(pairs, a, b, n);
    if k < n - 1 {
        lemma_unbound_member(pairs, a, b, k, (n - 1) as nat);
        let i = choose|i: int| 0 <= i < before.len() && before[i] == pairs[k];
        assert(now[i] == pairs[k]);
    } else {
        assert(now[now.len() - 1] == pairs[k]);
    }
}

proof fn lemma_unbound_source(
    pairs: Seq<(u32, u32)>,
    a: Seq<Option<u32>>,
    b: Seq<Option<u32>>,
    n: nat,
    i: int,
)
    requires
        n <= pairs.len(),
        0 <= i < unbound(pairs, a, b, n).len(),
    ensures
        ({
            let p = unbound(pairs, a, b, n)[i];
            a[p.0 as int] is None && b[p.1 as int] is None && pairs.contains(p)
        }),
    decreases n,
{
    if n > 0 {
        let before = unbound(pairs, a, b, (n - 1) as nat);
        if i < before.len() {
            lemma_unbound_source(pairs, a, b, (n - 1) as nat, i);
        } else {
            assert(pairs[n - 1] == unbound(pairs, a, b, n)[i]);
        }
    }
}

/// A matched pair may become a new point exactly where neither of its features is bound to
/// one yet: no such pair is left out, and no other one is in.
pub proof fn law_open_pairs_have_two_free_features(
    pairs: Seq<(u32, u32)>,
    a: Seq<Option<u32>>,
    b: Seq<Option<u32>>,
    p: (u32, u32),
)
    ensures
        unbound(pairs, a, b, pairs.len()).contains(p) <==> pairs.contains(p) && a[p.0 as int] is None
            && b[p.1 as int] is None,
{
    let open = unbound(pairs, a, b, pairs.len());
    if open.contains(p) {
        let i = choose|i: int| 0 <= i < open.len() && open[i] == p;
        lemma_unbound_source(pairs, a, b, pairs.len(), i);
    }
    if pairs.contains(p) && a[p.0 as int] is None && b[p.1 as int] is None {
        let k = choose|k: int| 0 <= k < pairs.len() && pairs[k] == p;
        lemma_unbound_member(pairs, a, b, k, pairs.len());
    }
}

/// A place is a loop candidate exactly where it is at least 15 keyframes older and not
/// covisible.
pub proof fn law_what_may_be_a_loop(kf: u32, cand: u32, covis: Seq<u32>)
    ensures
        !not_a_loop(kf, cand, covis) <==> cand + 15 <= kf && !covis.contains(cand),
{
}

/// A keyframe has an edge to its parent, first, and then one to each of its covisible
/// keyframes, in order and up to five; all start at the keyframe and none is a loop.
pub proof fn law_edges_of_a_keyframe(node: KfNode, k: int)
    requires
        0 <= k < node_edges(node).len(),
    ensures
        ({
            let e = node_edges(node);
            let near = node.covis@;
            &&& e[k].i == node.id && !e[k].is_loop
            &&& node.parent is Some && k == 0 ==> e[k].j == node.parent->0
            &&& node.parent is Some && k > 0 ==> e[k].j == near[k - 1]
            &&& node.parent is None ==> e[k].j == near[k]
            &&& e.len() == (if node.parent is Some {
                1int
            } else {
                0
            }) + (if near.len() >= 5 {
                5int
            } else {
                near.len() as int
            })
        }),
{
}

/// The graph holds the edges of every keyframe, keyframe after keyframe.
pub proof fn law_graph_holds_every_edge(nodes: Seq<KfNode>, k: nat, n: nat)
    requires
        k < n <= nodes.len(),
    ensures
        ({
            let at = rigid_edges(nodes, k).len() as int;
            let next = rigid_edges(nodes, k + 1).len() as int;
            &&& next <= rigid_edges(nodes, n).len()
            &&& rigid_edges(nodes, n).subrange(at, next) == node_edges(nodes[k as int])
        }),
        rigid_edges(nodes, 0).len() == 0,
    decreases n,
{
    let at = rigid_edges(nodes, k).len() as int;
    let next = rigid_edges(nodes, k + 1).len() as int;
    if k + 1 < n {
        law_graph_holds_every_edge(nodes, k, (n - 1) as nat);
        assert(rigid_edges(nodes, n).subrange(at, next) =~= rigid_edges(
            nodes,
            (n - 1) as nat,
        ).subrange(at, next));
    } else {
        assert(rigid_edges(nodes, n).subrange(at, next) =~= node_edges(nodes[k as int]));
    }
}

/// New points are sought with every covisible keyframe, in order, and with the parent; with
/// no other keyframe, and with none twice where the covisible ones are distinct.
pub proof fn law_partners(covis: Seq<u32>, parent: Option<u32>)
    ensures
        covis.is_prefix_of(partners(covis, parent)),
        parent is Some ==> partners(covis, parent).contains(parent->0),
        parent is None ==> partners(covis, parent) == covis,
        partners(covis, parent).len() <= covis.len() + 1,
        forall|k: u32| #[trigger]
            partners(covis, parent).contains(k) ==> covis.contains(k) || parent == Some(k),
        covis.no_duplicates() ==> partners(covis, parent).no_duplicates(),
{
    if parent is Some && !covis.contains(parent->0) {
        assert(partners(covis, parent).last() == parent->0);
    }
}

} // verus!
