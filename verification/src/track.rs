//! One track: the recent positions of one physical target.

use vstd::prelude::*;
use crate::clock::Timestamp;
use crate::clock::now;
use crate::geometry::RadarReturn;
use crate::geometry::Vec3D;
use crate::scalar::Scalar;

verus! {

/// How many observations a track remembers.
pub const HISTORY_LIMIT: usize = 10;

/// How far from a track's smoothed position a return may lie and still
/// continue the track: the logarithm to base 4 of the range at which the
/// return was measured. The caller computes the logarithm. The range stays
/// beside it: a range that is not positive admits nothing, whatever stands
/// in `log4`.
#[derive(Clone, Copy, Debug, PartialEq, Eq, Structural)]
pub struct Tolerance {
    pub distance: Scalar,
    pub log4: Scalar,
}

impl Tolerance {
    /// A return at `gap` from the smoothed position continues the track: the
    /// range is positive and `gap <= log4`.
    pub open spec fn admits(self, gap: Scalar) -> bool {
        self.distance.positive() && gap.at_most(self.log4)
    }

    pub fn accepts(&self, gap: &Scalar) -> (r: bool)
        ensures
            r == self.admits(*gap),
    {
        self.distance.is_positive() && gap.le(&self.log4)
    }
}

/// What is published of a track.
#[derive(Clone, Copy, Debug, PartialEq, Eq, Structural)]
pub struct Target {
    pub friendly: bool,
    pub id: u64,
    pub pos: Vec3D,
}

/// The mathematical content of a track.
pub struct TrackView {
    pub detected: Timestamp,
    pub history: Seq<(Vec3D, Timestamp)>,
}

/// The last `HISTORY_LIMIT` entries of `s`, or all of `s` if it has no more.
pub open spec fn latest(s: Seq<(Vec3D, Timestamp)>) -> Seq<(Vec3D, Timestamp)> {
    if s.len() > HISTORY_LIMIT {
        s.subrange(s.len() - HISTORY_LIMIT, s.len() as int)
    } else {
        s
    }
}

impl TrackView {
    /// A track holds at least the observation that started it and never more
    /// than `HISTORY_LIMIT`.
    pub open spec fn well_formed(self) -> bool {
        1 <= self.history.len() <= HISTORY_LIMIT
    }

    /// The track that one observation starts.
    pub open spec fn fresh(point: Vec3D, at: Timestamp) -> TrackView {
        TrackView { detected: at, history: seq![(point, at)] }
    }

    /// The track after one more observation: appended, and the oldest given
    /// up once the history is over its limit.
    pub open spec fn record(self, point: Vec3D, at: Timestamp) -> TrackView {
        TrackView { detected: self.detected, history: latest(self.history.push((point, at))) }
    }

    /// The published form: never friendly, identifier 0, at the oldest
    /// position that the history still holds.
    pub open spec fn target(self) -> Target {
        Target { friendly: false, id: 0, pos: self.history[0].0 }
    }

    /// The track after the observations `seen`, taken in order.
    pub open spec fn record_all(self, seen: Seq<(Vec3D, Timestamp)>) -> TrackView
        decreases seen.len(),
    {
        if seen.len() == 0 {
            self
        } else {
            self.record_all(seen.drop_last()).record(seen.last().0, seen.last().1)
        }
    }
}

/// Recording keeps a track well formed and the time of its detection, and
/// lengthens the history by one until the limit is reached.
pub proof fn lemma_record_bounded(track: TrackView, point: Vec3D, at: Timestamp)
    requires
        track.well_formed(),
    ensures
        track.record(point, at).well_formed(),
        track.record(point, at).detected == track.detected,
        track.record(point, at).history.last() == (point, at),
        track.history.len() < HISTORY_LIMIT ==> track.record(point, at).history
            == track.history.push((point, at)),
{
}

/// On a full history, recording gives up the oldest entry and no other.
pub proof fn lemma_record_evicts_oldest(track: TrackView, point: Vec3D, at: Timestamp)
    requires
        track.history.len() == HISTORY_LIMIT,
    ensures
        track.record(point, at).history == track.history.skip(1).push((point, at)),
{
    assert(track.record(point, at).history =~= track.history.skip(1).push((point, at)));
}

/// After any run of observations a track holds the latest `HISTORY_LIMIT` of
/// what it held before and what it was given since, in the order in which
/// they came.
pub proof fn lemma_history_holds_latest(track: TrackView, seen: Seq<(Vec3D, Timestamp)>)
    requires
        track.well_formed(),
    ensures
        track.record_all(seen).well_formed(),
        track.record_all(seen).detected == track.detected,
        track.record_all(seen).history == latest(track.history + seen),
    decreases seen.len(),
{
    if seen.len() == 0 {
        assert(track.history + seen =~= track.history);
    } else {
        lemma_history_holds_latest(track, seen.drop_last());
        let all = track.history + seen;
        let but_last = track.history + seen.drop_last();
        assert(all =~= but_last.push(seen.last()));
        assert(latest(latest(but_last).push(seen.last())) =~= latest(all));
    }
}

/// A track that was given `HISTORY_LIMIT` or more observations after the one
/// that started it holds exactly `HISTORY_LIMIT`: the oldest are gone.
pub proof fn lemma_history_full_after_limit(point: Vec3D, at: Timestamp, seen: Seq<(Vec3D, Timestamp)>)
    requires
        seen.len() >= HISTORY_LIMIT,
    ensures
        TrackView::fresh(point, at).record_all(seen).history.len() == HISTORY_LIMIT,
        TrackView::fresh(point, at).record_all(seen).history == seen.subrange(
            seen.len() - HISTORY_LIMIT,
            seen.len() as int,
        ),
{
    let start = TrackView::fresh(point, at);
    lemma_history_holds_latest(start, seen);
    assert(latest(start.history + seen) =~= seen.subrange(seen.len() - HISTORY_LIMIT, seen.len() as int));
}

/// One target under observation.
pub struct TargetInfo {
    detected: Timestamp,
    positions: Vec<(Vec3D, Timestamp)>,
}

impl View for TargetInfo {
    type V = TrackView;

    closed spec fn view(&self) -> TrackView {
        TrackView { detected: self.detected, history: self.positions@ }
    }
}

impl TargetInfo {
    #[verifier::type_invariant]
    closed spec fn bounded(self) -> bool {
        1 <= self.positions@.len() <= HISTORY_LIMIT
    }

    /// Starts a track with the observation `t`, made at `at`.
    pub fn starting_at(t: &RadarReturn, at: Timestamp) -> (track: TargetInfo)
        ensures
            track@ == TrackView::fresh(t.vector(), at),
            track@.well_formed(),
    {
        let mut positions: Vec<(Vec3D, Timestamp)> = Vec::new();
        positions.push((Vec3D::from(t), at));
        let track = TargetInfo { detected: at, positions };
        assert(track@.history =~= seq![(t.vector(), at)]);
        track
    }

    /// Appends an observation, giving up the oldest once the history is full.
    pub fn record(&mut self, point: Vec3D, at: Timestamp)
        ensures
            final(self)@ == old(self)@.record(point, at),
            final(self)@.well_formed(),
    {
        proof {
            use_type_invariant(&*self);
        }
        let n: usize = self.positions.len();
        let first: usize = if n >= HISTORY_LIMIT { n + 1 - HISTORY_LIMIT } else { 0 };
        let mut kept: Vec<(Vec3D, Timestamp)> = Vec::new();
        let mut i: usize = first;
        while i < n
            invariant
                first <= i <= n,
                n == self.positions@.len(),
                kept@ == self.positions@.subrange(first as int, i as int),
            decreases n - i,
        {
            kept.push(self.positions[i]);
            i = i + 1;
            assert(kept@ =~= self.positions@.subrange(first as int, i as int));
        }
        kept.push((point, at));
        assert(kept@ =~= old(self)@.record(point, at).history);
        self.positions = kept;
    }

    /// Takes `t` into the track if `d` admits the distance `gap` between `t`
    /// and the track's smoothed position, stamped `at`. Says whether it did.
    pub fn check_or_add_at(&mut self, t: &RadarReturn, d: &Tolerance, gap: &Scalar, at: Timestamp) -> (taken: bool)
        ensures
            taken == d.admits(*gap),
            taken ==> final(self)@ == old(self)@.record(t.vector(), at),
            !taken ==> final(self)@ == old(self)@,
            final(self)@.well_formed(),
    {
        proof {
            use_type_invariant(&*self);
        }
        if !d.accepts(gap) {
            return false;
        }
        self.record(Vec3D::from(t), at);
        true
    }

    /// As `check_or_add_at`, stamped with the time of the call.
    pub fn check_or_add(&mut self, t: &RadarReturn, d: &Tolerance, gap: &Scalar) -> (taken: bool)
        ensures
            taken == d.admits(*gap),
            taken ==> exists|at: Timestamp| final(self)@ == old(self)@.record(t.vector(), at),
            !taken ==> final(self)@ == old(self)@,
            final(self)@.well_formed(),
    {
        let at = now();
        self.check_or_add_at(t, d, gap, at)
    }

    /// When the track was started.
    pub fn detected(&self) -> (at: Timestamp)
        ensures
            at == self@.detected,
    {
        self.detected
    }

    /// The observations that the track holds, oldest first.
    pub fn positions(&self) -> (history: &Vec<(Vec3D, Timestamp)>)
        ensures
            history@ == self@.history,
            self@.well_formed(),
    {
        proof {
            use_type_invariant(self);
        }
        &self.positions
    }
}

impl From<&RadarReturn> for TargetInfo {
    /// Starts a track with the observation `raw`, made at the time of the
    /// call.
    fn from(raw: &RadarReturn) -> (track: TargetInfo)
        ensures
            exists|at: Timestamp| track@ == TrackView::fresh(raw.vector(), at),
            track@.well_formed(),
    {
        let at = now();
        TargetInfo::starting_at(raw, at)
    }
}

impl vstd::std_specs::convert::FromSpecImpl<&RadarReturn> for TargetInfo {
    /// The track depends on the clock as well as on the return, so it is no
    /// function of the return alone.
    open spec fn obeys_from_spec() -> bool {
        false
    }

    open spec fn from_spec(raw: &RadarReturn) -> TargetInfo {
        arbitrary()
    }
}

impl From<&TargetInfo> for Target {
    fn from(raw: &TargetInfo) -> (t: Target) {
        proof {
            use_type_invariant(raw);
        }
        Target { friendly: false, id: 0, pos: raw.positions[0].0 }
    }
}

impl vstd::std_specs::convert::FromSpecImpl<&TargetInfo> for Target {
    open spec fn obeys_from_spec() -> bool {
        true
    }

    open spec fn from_spec(raw: &TargetInfo) -> Target {
        raw@.target()
    }
}

} // verus!
