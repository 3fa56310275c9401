//! The store of all tracks and the association of a return with one of them.

use vstd::prelude::*;
use crate::clock::Timestamp;
use crate::clock::now;
use crate::geometry::RadarReturn;
use crate::geometry::Vec3D;
use crate::scalar::Scalar;
use crate::track::Target;
use crate::track::TargetInfo;
use crate::track::Tolerance;
use crate::track::HISTORY_LIMIT;
use crate::track::TrackView;

verus! {

/// `i` is the earliest of the first `n` tracks whose distance `gaps[i]` the
/// tolerance admits. A track for which no distance was handed in is never
/// admitted.
pub open spec fn is_first_admitted(d: Tolerance, gaps: Seq<Scalar>, n: nat, i: int) -> bool {
    &&& 0 <= i < n
    &&& i < gaps.len()
    &&& d.admits(gaps[i])
    &&& forall|j: int| 0 <= j < i ==> !d.admits(#[trigger] gaps[j])
}

/// The earliest admitted track, if there is one.
pub open spec fn first_admitted(d: Tolerance, gaps: Seq<Scalar>, n: nat) -> Option<int> {
    if exists|i: int| is_first_admitted(d, gaps, n, i) {
        Some(choose|i: int| is_first_admitted(d, gaps, n, i))
    } else {
        None
    }
}

/// The index of the track that an association touches: the earliest admitted
/// one, or the place behind the last where a new one goes.
pub open spec fn affected(tracks: Seq<TrackView>, d: Tolerance, gaps: Seq<Scalar>) -> int {
    match first_admitted(d, gaps, tracks.len()) {
        Some(i) => i,
        None => tracks.len() as int,
    }
}

/// The tracks after the association of `point`, seen at `at`: the earliest
/// admitted track records it; where none is admitted, it starts a new track
/// behind all others.
pub open spec fn associated(
    tracks: Seq<TrackView>,
    point: Vec3D,
    d: Tolerance,
    gaps: Seq<Scalar>,
    at: Timestamp,
) -> Seq<TrackView> {
    match first_admitted(d, gaps, tracks.len()) {
        Some(i) => tracks.update(i, tracks[i].record(point, at)),
        None => tracks.push(TrackView::fresh(point, at)),
    }
}

/// What is published of the tracks: one target for each, in their order.
pub open spec fn published(tracks: Seq<TrackView>) -> Seq<Target> {
    Seq::new(tracks.len(), |i: int| tracks[i].target())
}

/// Every track is well formed.
pub open spec fn all_well_formed(tracks: Seq<TrackView>) -> bool {
    forall|i: int| 0 <= i < tracks.len() ==> (#[trigger] tracks[i]).well_formed()
}

/// At most one index is the earliest admitted.
pub proof fn lemma_first_admitted_unique(d: Tolerance, gaps: Seq<Scalar>, n: nat, i: int, k: int)
    requires
        is_first_admitted(d, gaps, n, i),
        is_first_admitted(d, gaps, n, k),
    ensures
        i == k,
{
    if i < k {
        assert(!d.admits(gaps[i]));
    }
    if k < i {
        assert(!d.admits(gaps[k]));
    }
}

/// What `first_admitted` finds: the earliest admitted index, or the fact that
/// none of the first `n` tracks is admitted.
pub proof fn lemma_first_admitted(d: Tolerance, gaps: Seq<Scalar>, n: nat)
    ensures
        match first_admitted(d, gaps, n) {
            Some(i) => is_first_admitted(d, gaps, n, i),
            None => forall|j: int| 0 <= j < n && j < gaps.len() ==> !d.admits(#[trigger] gaps[j]),
        },
{
    if first_admitted(d, gaps, n) is None {
        assert forall|j: int| 0 <= j < n && j < gaps.len() implies !d.admits(#[trigger] gaps[j]) by {
            if d.admits(gaps[j]) {
                lemma_some_admitted(d, gaps, n, j);
            }
        }
    }
}

/// Where some track is admitted, there is an earliest one, at or before it.
pub proof fn lemma_some_admitted(d: Tolerance, gaps: Seq<Scalar>, n: nat, j: int)
    requires
        0 <= j < n,
        j < gaps.len(),
        d.admits(gaps[j]),
    ensures
        first_admitted(d, gaps, n) is Some,
        first_admitted(d, gaps, n)->0 <= j,
        is_first_admitted(d, gaps, n, first_admitted(d, gaps, n)->0),
    decreases j,
{
    if exists|k: int| 0 <= k < j && d.admits(#[trigger] gaps[k]) {
        let k = choose|k: int| 0 <= k < j && d.admits(#[trigger] gaps[k]);
        lemma_some_admitted(d, gaps, n, k);
    } else {
        assert(is_first_admitted(d, gaps, n, j));
        lemma_first_admitted_unique(d, gaps, n, j, first_admitted(d, gaps, n)->0);
    }
}

/// First match: of two tracks that both admit the return, the earlier stands
/// in the way of the later. The later one is left as it was, and no track is
/// added.
pub proof fn lemma_first_match_wins(
    tracks: Seq<TrackView>,
    point: Vec3D,
    d: Tolerance,
    gaps: Seq<Scalar>,
    at: Timestamp,
    i: int,
    j: int,
)
    requires
        0 <= i < j < tracks.len(),
        j < gaps.len(),
        d.admits(gaps[i]),
        d.admits(gaps[j]),
    ensures
        ({
            let after = associated(tracks, point, d, gaps, at);
            let k = affected(tracks, d, gaps);
            &&& 0 <= k <= i
            &&& d.admits(gaps[k])
            &&& forall|e: int| 0 <= e < k ==> !d.admits(#[trigger] gaps[e])
            &&& after.len() == tracks.len()
            &&& after[k] == tracks[k].record(point, at)
            &&& after[j] == tracks[j]
        }),
{
    lemma_some_admitted(d, gaps, tracks.len(), i);
}

/// A return that no track admits starts a new track behind all others: the
/// store grows by exactly one and every track that was there stays as it was.
pub proof fn lemma_no_match_creates(
    tracks: Seq<TrackView>,
    point: Vec3D,
    d: Tolerance,
    gaps: Seq<Scalar>,
    at: Timestamp,
)
    requires
        forall|i: int| 0 <= i < tracks.len() && i < gaps.len() ==> !d.admits(#[trigger] gaps[i]),
    ensures
        affected(tracks, d, gaps) == tracks.len(),
        associated(tracks, point, d, gaps, at) == tracks.push(TrackView::fresh(point, at)),
        associated(tracks, point, d, gaps, at).len() == tracks.len() + 1,
{
    if first_admitted(d, gaps, tracks.len()) is Some {
        lemma_first_admitted(d, gaps, tracks.len());
        let i = first_admitted(d, gaps, tracks.len())->0;
        assert(d.admits(gaps[i]));
    }
}

/// A range that is not positive admits nothing: whatever its logarithm and
/// the distances are said to be, the return starts a new track.
pub proof fn lemma_degenerate_range_creates(
    tracks: Seq<TrackView>,
    point: Vec3D,
    d: Tolerance,
    gaps: Seq<Scalar>,
    at: Timestamp,
)
    requires
        !d.distance.positive(),
    ensures
        forall|gap: Scalar| !d.admits(gap),
        associated(tracks, point, d, gaps, at) == tracks.push(TrackView::fresh(point, at)),
        associated(tracks, point, d, gaps, at).len() == tracks.len() + 1,
{
    lemma_no_match_creates(tracks, point, d, gaps, at);
}

/// An association keeps the store in order: it touches the one track at
/// `affected`, leaves every other track where and as it was, keeps the time
/// of detection of each, and adds at most one track, behind all others.
pub proof fn lemma_association_keeps_order(
    tracks: Seq<TrackView>,
    point: Vec3D,
    d: Tolerance,
    gaps: Seq<Scalar>,
    at: Timestamp,
)
    requires
        all_well_formed(tracks),
    ensures
        ({
            let after = associated(tracks, point, d, gaps, at);
            let k = affected(tracks, d, gaps);
            &&& all_well_formed(after)
            &&& 0 <= k <= tracks.len()
            &&& k < tracks.len() ==> after.len() == tracks.len() && after[k] == tracks[k].record(point, at)
            &&& k == tracks.len() ==> after.len() == tracks.len() + 1 && after[k] == TrackView::fresh(
                point,
                at,
            )
            &&& after[k].history.last() == (point, at)
            &&& forall|i: int| 0 <= i < tracks.len() && i != k ==> after[i] == #[trigger] tracks[i]
            &&& forall|i: int|
                0 <= i < tracks.len() ==> after[i].detected == (#[trigger] tracks[i]).detected
        }),
{
    lemma_first_admitted(d, gaps, tracks.len());
    let after = associated(tracks, point, d, gaps, at);
    assert forall|i: int| 0 <= i < after.len() implies (#[trigger] after[i]).well_formed() by {
        if i < tracks.len() {
            assert(tracks[i].well_formed());
        }
    }
}

/// What is published of a track does not change while its history has room:
/// an association changes, of all published targets that were there, at most
/// the one of a matched track whose history was full.
pub proof fn lemma_association_keeps_published(
    tracks: Seq<TrackView>,
    point: Vec3D,
    d: Tolerance,
    gaps: Seq<Scalar>,
    at: Timestamp,
    i: int,
)
    requires
        all_well_formed(tracks),
        0 <= i < tracks.len(),
        i != affected(tracks, d, gaps) || tracks[i].history.len() < HISTORY_LIMIT,
    ensures
        published(associated(tracks, point, d, gaps, at))[i] == published(tracks)[i],
{
    lemma_association_keeps_order(tracks, point, d, gaps, at);
    assert(tracks[i].well_formed());
}

/// The published list follows the store: as many targets as tracks, the
/// target at each index made from the track at that index.
pub proof fn lemma_published_in_order(tracks: Seq<TrackView>)
    ensures
        published(tracks).len() == tracks.len(),
        forall|i: int| 0 <= i < tracks.len() ==> #[trigger] published(tracks)[i] == tracks[i].target(),
{
}

/// All known tracks, in the order in which they were started.
pub struct TrackStore {
    tracks: Vec<TargetInfo>,
}

impl View for TrackStore {
    type V = Seq<TrackView>;

    closed spec fn view(&self) -> Seq<TrackView> {
        Seq::new(self.tracks@.len(), |i: int| self.tracks@[i]@)
    }
}

impl TrackStore {
    /// A store without tracks.
    pub fn new() -> (store: TrackStore)
        ensures
            store@ == Seq::<TrackView>::empty(),
    {
        let store = TrackStore { tracks: Vec::new() };
        assert(store@ =~= Seq::<TrackView>::empty());
        store
    }

    /// The number of tracks.
    pub fn len(&self) -> (n: usize)
        ensures
            n == self@.len(),
    {
        self.tracks.len()
    }

    /// The tracks, in store order.
    pub fn tracks(&self) -> (all: &Vec<TargetInfo>)
        ensures
            all@.len() == self@.len(),
            forall|i: int| 0 <= i < all@.len() ==> (#[trigger] all@[i])@ == self@[i],
    {
        &self.tracks
    }

    /// The earliest track whose distance from the return the tolerance admits.
    /// `gaps[i]` is the distance between the return and the smoothed position
    /// of track `i`.
    pub fn first_match(&self, d: &Tolerance, gaps: &Vec<Scalar>) -> (found: Option<usize>)
        ensures
            match found {
                Some(i) => first_admitted(*d, gaps@, self@.len()) == Some(i as int),
                None => first_admitted(*d, gaps@, self@.len()) == None::<int>,
            },
    {
        let n: usize = self.tracks.len();
        let mut i: usize = 0;
        while i < n && i < gaps.len()
            invariant
                i <= n,
                n == self@.len(),
                forall|j: int| 0 <= j < i && j < gaps@.len() ==> !d.admits(#[trigger] gaps@[j]),
            decreases n - i,
        {
            if d.accepts(&gaps[i]) {
                proof {
                    assert(is_first_admitted(*d, gaps@, self@.len(), i as int));
                    let k = choose|k: int| is_first_admitted(*d, gaps@, self@.len(), k);
                    lemma_first_admitted_unique(*d, gaps@, self@.len(), i as int, k);
                }
                return Some(i);
            }
            i = i + 1;
        }
        None
    }

    /// Associates the return `t`, seen at `at`, with the earliest track that
    /// admits it, or starts a new track with it. Returns the index of the
    /// track concerned and what is published of it.
    pub fn associate_at(&mut self, t: &RadarReturn, d: &Tolerance, gaps: &Vec<Scalar>, at: Timestamp) -> (r: (usize, Target))
        ensures
            final(self)@ == associated(old(self)@, t.vector(), *d, gaps@, at),
            r.0 == affected(old(self)@, *d, gaps@),
            r.1 == final(self)@[r.0 as int].target(),
    {
        match self.first_match(d, gaps) {
            Some(i) => {
                self.tracks[i].record(Vec3D::from(t), at);
                assert(self@ =~= associated(old(self)@, t.vector(), *d, gaps@, at));
                (i, Target::from(&self.tracks[i]))
            },
            None => {
                let track = TargetInfo::starting_at(t, at);
                let target = Target::from(&track);
                let i: usize = self.tracks.len();
                self.tracks.push(track);
                assert(self@ =~= associated(old(self)@, t.vector(), *d, gaps@, at));
                (i, target)
            },
        }
    }

    /// As `associate_at`, stamped with the time of the call.
    pub fn associate(&mut self, t: &RadarReturn, d: &Tolerance, gaps: &Vec<Scalar>) -> (r: (usize, Target))
        ensures
            exists|at: Timestamp| final(self)@ == associated(old(self)@, t.vector(), *d, gaps@, at),
            r.0 == affected(old(self)@, *d, gaps@),
            r.1 == final(self)@[r.0 as int].target(),
    {
        let at = now();
        self.associate_at(t, d, gaps, at)
    }

    /// What is published of the tracks: one target for each, in store order.
    pub fn snapshot(&self) -> (targets: Vec<Target>)
        ensures
            targets@ == published(self@),
    {
        let mut targets: Vec<Target> = Vec::new();
        let n: usize = self.tracks.len();
        let mut i: usize = 0;
        while i < n
            invariant
                i <= n,
                n == self.tracks@.len(),
                targets@ == published(self@).subrange(0, i as int),
            decreases n - i,
        {
            targets.push(Target::from(&self.tracks[i]));
            i = i + 1;
            assert(targets@ =~= published(self@).subrange(0, i as int));
        }
        assert(targets@ =~= published(self@));
        targets
    }
}

} // verus!
