//! The timeline: tracks of clips placed in time.

use vstd::prelude::*;
use crate::graph::TransitionKind;
use crate::refs::Ref;

verus! {

/// The kind of a playback track.
#[derive(Debug, Clone, Copy, PartialEq, Eq, Structural)]
pub enum TrackKind {
    Video,
    Audio,
}

/// A clip of an asset placed on a track: the part of the asset between its in
/// and out points, starting at `track_offset_ms` on the track.
#[derive(Debug, Clone, Copy, PartialEq, Eq, Structural)]
pub struct Clip {
    pub asset_ref: Ref,
    pub in_point_ms: u64,
    pub out_point_ms: u64,
    pub track_offset_ms: u64,
    pub transition: Option<TransitionKind>,
}

/// A track holding clips, in sequence or overlapping.
#[derive(Debug, Clone)]
pub struct Track {
    pub name: String,
    pub kind: TrackKind,
    pub clips: Vec<Clip>,
}

/// A track, with its name as a character sequence.
pub struct TrackV {
    pub name: Seq<char>,
    pub kind: TrackKind,
    pub clips: Seq<Clip>,
}

impl View for Track {
    type V = TrackV;

    open spec fn view(&self) -> TrackV {
        TrackV { name: self.name@, kind: self.kind, clips: self.clips@ }
    }
}

/// The tracks of a project.
#[derive(Debug, Clone)]
pub struct Timeline {
    pub tracks: Vec<Track>,
}

impl View for Timeline {
    type V = Seq<TrackV>;

    open spec fn view(&self) -> Seq<TrackV> {
        self.tracks@.map_values(|t: Track| t@)
    }
}

impl Track {
    /// A copy of the track: the same name, kind and clips.
    pub fn duplicate(&self) -> (c: Track)
        ensures
            c@ == self@,
    {
        let mut clips: Vec<Clip> = Vec::new();
        let mut i: usize = 0;
        while i < self.clips.len()
            invariant
                i <= self.clips.len(),
                clips@ == self.clips@.take(i as int),
            decreases self.clips.len() - i,
        {
            clips.push(self.clips[i]);
            i = i + 1;
            assert(clips@ =~= self.clips@.take(i as int));
        }
        assert(clips@ =~= self.clips@);
        Track { name: self.name.clone(), kind: self.kind, clips }
    }
}

impl Timeline {
    /// A timeline without tracks.
    pub fn new() -> (t: Timeline)
        ensures
            t@ == Seq::<TrackV>::empty(),
    {
        let t = Timeline { tracks: Vec::new() };
        assert(t@ =~= Seq::<TrackV>::empty());
        t
    }

    /// A copy of the timeline: the same tracks.
    pub fn duplicate(&self) -> (c: Timeline)
        ensures
            c@ == self@,
    {
        let mut tracks: Vec<Track> = Vec::new();
        let mut i: usize = 0;
        while i < self.tracks.len()
            invariant
                i <= self.tracks.len(),
                tracks@.map_values(|t: Track| t@) == self@.take(i as int),
            decreases self.tracks.len() - i,
        {
            let t = self.tracks[i].duplicate();
            let ghost before = tracks@;
            tracks.push(t);
            assert(tracks@.map_values(|t: Track| t@) =~= before.map_values(|t: Track| t@).push(t@));
            i = i + 1;
            assert(self@.take(i as int) =~= self@.take(i - 1).push(self@[i - 1]));
        }
        let c = Timeline { tracks };
        assert(self@.take(i as int) =~= self@);
        c
    }
}

} // verus!
