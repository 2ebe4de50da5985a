//! Bookkeeping of the place-recognition index: which keyframes are indexed, and
//! when the vocabulary is trained.
//!
//! The vocabulary and the database themselves are outside. Entries are added in
//! keyframe order, and `entry_kf` maps a database entry back to its keyframe.
use super::brief::Descriptor;
use vstd::prelude::*;

verus! {

/// Keyframes pooled before the vocabulary is trained.
pub const N_VOCAB_KF: usize = 6;

/// A keyframe with its descriptors.
#[derive(Debug)]
pub struct PendingKf {
    pub kf: u32,
    pub descs: Vec<Descriptor>,
}

/// What to do after a keyframe was registered.
#[derive(Debug)]
pub enum PlaceAction {
    /// Add the keyframe's vector to the database.
    Index { kf: u32, descs: Vec<Descriptor> },
    /// Nothing yet.
    Buffered,
    /// Train a vocabulary on the descriptors of the buffered keyframes.
    Train,
}

/// Index state.
#[derive(Debug)]
pub struct PlaceDb {
    /// Words of the vocabulary; 0 until there is one.
    pub words: usize,
    /// Database entry index to keyframe id.
    pub entry_kf: Vec<u32>,
    /// Keyframes buffered until the vocabulary exists.
    pub pending: Vec<PendingKf>,
}

/// Keyframe ids of buffered keyframes.
pub open spec fn pending_ids(p: Seq<PendingKf>) -> Seq<u32> {
    Seq::new(p.len(), |i: int| p[i].kf)
}

impl PlaceDb {
    /// Nothing is buffered once a vocabulary exists, and nothing is indexed
    /// before.
    pub open spec fn wf(&self) -> bool {
        &&& self.words > 0 ==> self.pending@.len() == 0
        &&& self.words == 0 ==> self.entry_kf@.len() == 0
    }

    /// All keyframes registered since the last reset, in order.
    pub open spec fn registered(&self) -> Seq<u32> {
        self.entry_kf@ + pending_ids(self.pending@)
    }

    /// An empty index over a vocabulary of `words` words (0 for none yet).
    pub fn new(words: usize) -> (r: Self)
        ensures
            r.wf(),
            r.words == words,
            r.registered() == Seq::<u32>::empty(),
    {
        let r = PlaceDb { words, entry_kf: Vec::new(), pending: Vec::new() };
        assert(r.registered() =~= Seq::<u32>::empty());
        r
    }

    /// A vocabulary exists, so queries work.
    pub fn is_ready(&self) -> (r: bool)
        ensures
            r == (self.words > 0),
    {
        self.words > 0
    }

    /// Word count of the vocabulary; 0 until one exists.
    pub fn vocab_words(&self) -> (r: usize)
        ensures
            r == self.words,
    {
        self.words
    }

    /// Number of keyframes in the database.
    pub fn len(&self) -> (r: usize)
        ensures
            r == self.entry_kf@.len(),
    {
        self.entry_kf.len()
    }

    pub fn is_empty(&self) -> (r: bool)
        ensures
            r == (self.entry_kf@.len() == 0),
    {
        self.entry_kf.len() == 0
    }

    /// Registers a keyframe's full descriptor set. With a vocabulary it goes
    /// into the database at once; without one it is buffered, and from the
    /// sixth buffered keyframe on training is asked for.
    pub fn on_keyframe(&mut self, kf: u32, descs: Vec<Descriptor>) -> (r: PlaceAction)
        requires
            old(self).wf(),
        ensures
            final(self).wf(),
            final(self).words == old(self).words,
            final(self).registered() == old(self).registered().push(kf),
            old(self).words > 0 ==> r == (PlaceAction::Index { kf, descs }) && final(self).entry_kf@ == old(self).entry_kf@.push(kf) && final(self).pending@ == old(self).pending@,
            old(self).words == 0 ==> final(self).entry_kf@ == old(self).entry_kf@ && final(self).pending@ == old(self).pending@.push(PendingKf { kf, descs }) && r == (if final(self).pending@.len() < N_VOCAB_KF {
                PlaceAction::Buffered
            } else {
                PlaceAction::Train
            }),
            old(self).words == 0 ==> (r is Train <==> old(self).pending@.len() >= 5),
    {
        let ghost before = self.registered();
        if self.words > 0 {
            self.entry_kf.push(kf);
            assert(self.registered() =~= before.push(kf));
            return PlaceAction::Index { kf, descs };
        }
        self.pending.push(PendingKf { kf, descs });
        assert(self.registered() =~= before.push(kf));
        if self.pending.len() < N_VOCAB_KF {
            PlaceAction::Buffered
        } else {
            PlaceAction::Train
        }
    }

    /// Training gave a vocabulary of `words` words. An empty one leaves the
    /// keyframes buffered; otherwise they are handed out, in keyframe order, to
    /// be added to the database.
    pub fn trained(&mut self, words: usize) -> (r: Vec<PendingKf>)
        requires
            old(self).wf(),
            old(self).words == 0,
        ensures
            final(self).wf(),
            final(self).words == words,
            final(self).registered() == old(self).registered(),
            words == 0 ==> r@.len() == 0 && final(self).pending@ == old(self).pending@,
            words > 0 ==> r@ == old(self).pending@ && final(self).entry_kf@ == pending_ids(
                old(self).pending@,
            ),
    {
        if words == 0 {
            return Vec::new();
        }
        let ghost before = self.registered();
        self.words = words;
        let mut out: Vec<PendingKf> = Vec::new();
        core::mem::swap(&mut out, &mut self.pending);
        let mut ids: Vec<u32> = Vec::new();
        let mut i: usize = 0;
        while i < out.len()
            invariant
                i <= out@.len(),
                ids@.len() == i,
                forall|k: int| 0 <= k < i ==> #[trigger] ids@[k] == out@[k].kf,
            decreases out@.len() - i,
        {
            ids.push(out[i].kf);
            i = i + 1;
        }
        assert(ids@ =~= pending_ids(out@));
        self.entry_kf = ids;
        assert(self.registered() =~= before);
        out
    }

    /// Drops every indexed keyframe for a fresh mapping session. The
    /// vocabulary is kept: it stays valid for the new session.
    pub fn reset(&mut self)
        requires
            old(self).wf(),
        ensures
            final(self).wf(),
            final(self).words == old(self).words,
            final(self).registered() == Seq::<u32>::empty(),
    {
        self.entry_kf.clear();
        self.pending.clear();
        assert(self.registered() =~= Seq::<u32>::empty());
    }

    /// Keyframes of database entries that are ranked best first: at most `max`, and
    /// none before there is a vocabulary.
    pub fn query(&self, ranked: &[usize], max: usize) -> (r: Vec<u32>)
        requires
            forall|i: int| 0 <= i < ranked@.len() ==> #[trigger] ranked@[i] < self.entry_kf@.len(),
        ensures
            r@.len() == (if self.words == 0 {
                0
            } else if ranked@.len() < max {
                ranked@.len() as int
            } else {
                max as int
            }),
            forall|i: int|
                0 <= i < r@.len() ==> #[trigger] r@[i] == self.entry_kf@[ranked@[i] as int],
    {
        let mut out: Vec<u32> = Vec::new();
        if self.words == 0 {
            return out;
        }
        let mut i: usize = 0;
        while i < ranked.len() && i < max
            invariant
                i <= ranked@.len(),
                i <= max,
                out@.len() == i,
                forall|k: int|
                    0 <= k < ranked@.len() ==> #[trigger] ranked@[k] < self.entry_kf@.len(),
                forall|k: int|
                    0 <= k < i ==> #[trigger] out@[k] == self.entry_kf@[ranked@[k] as int],
            decreases ranked@.len() - i,
        {
            out.push(self.keyframe_of(ranked[i]));
            i = i + 1;
        }
        out
    }

    /// Keyframe of a database entry.
    pub fn keyframe_of(&self, entry: usize) -> (r: u32)
        requires
            entry < self.entry_kf@.len(),
        ensures
            r == self.entry_kf@[entry as int],
    {
        self.entry_kf[entry]
    }
}

} // verus!
