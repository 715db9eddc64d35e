//! Edit decision lists: the CMX 3600 text that describes a timeline, one event per
//! clip, with timecodes at 30 frames per second.

use vstd::prelude::*;
use crate::dsl::opt_view;
use crate::edit::first_missing;
use crate::refs::{AetherError, ErrorV, Ref};
use crate::registry::{Asset, RefRegistry};
use crate::text::{decimal, owned, push_str, u64_decimal};
use crate::timeline::{Clip, Timeline, Track, TrackV};

verus! {

/// `n` in decimal, with zeros in front up to `w` digits (`{:0w}`).
pub open spec fn padded(n: nat, w: nat) -> Seq<char> {
    let d = decimal(n);
    if d.len() >= w {
        d
    } else {
        Seq::new((w - d.len()) as nat, |i: int| '0') + d
    }
}

/// The timecode `HH:MM:SS:FF` of a frame count at `fps` frames per second.
pub open spec fn timecode(frames: nat, fps: nat) -> Seq<char> {
    let secs = frames / fps;
    padded(secs / 3600, 2) + ":"@ + padded((secs % 3600) / 60, 2) + ":"@ + padded(secs % 60, 2) + ":"@ + padded(
        frames % fps,
        2,
    )
}

fn pad_decimal(n: u64, w: usize) -> (r: String)
    ensures
        r@ == padded(n as nat, w as nat),
{
    let d = u64_decimal(n);
    let len = d.unicode_len();
    if len >= w {
        return d;
    }
    let mut r = String::new();
    let mut k: usize = 0;
    while k < w - len
        invariant
            len < w,
            k <= w - len,
            r@ == Seq::new(k as nat, |i: int| '0'),
        decreases w - len - k,
    {
        crate::text::push_char(&mut r, '0');
        k = k + 1;
        assert(r@ =~= Seq::new(k as nat, |i: int| '0'));
    }
    push_str(&mut r, d.as_str());
    r
}

/// The timecode of a frame count at `fps` frames per second.
pub fn format_timecode(frames: u64, fps: u64) -> (r: String)
    requires
        fps > 0,
    ensures
        r@ == timecode(frames as nat, fps as nat),
{
    let total = frames / fps;
    let f = frames % fps;
    let mut r = pad_decimal(total / 3600, 2);
    push_str(&mut r, ":");
    let m = pad_decimal((total % 3600) / 60, 2);
    push_str(&mut r, m.as_str());
    push_str(&mut r, ":");
    let s = pad_decimal(total % 60, 2);
    push_str(&mut r, s.as_str());
    push_str(&mut r, ":");
    let ff = pad_decimal(f, 2);
    push_str(&mut r, ff.as_str());
    r
}

/// The frame a time in milliseconds falls in, at 30 frames per second.
pub open spec fn frame_at(ms: u64) -> nat {
    (ms as nat * 3) / 100
}

/// The name given to the file name that `std::path::Path::file_name` finds in a
/// path, as text.
pub uninterp spec fn std_path_file_name(path: Seq<char>) -> Option<Seq<char>>;

/// The last component of a path (`Path::file_name`), if it names a file.
#[verifier::external_body]
fn path_file_name(path: &str) -> (r: Option<String>)
    ensures
        opt_view(r) == std_path_file_name(path@),
{
    match std::path::Path::new(path).file_name() {
        Some(n) => Some(n.to_string_lossy().into_owned()),
        None => None,
    }
}

/// The name an event gives its clip: the file name of the asset's path, or
/// `UNKNOWN`.
pub open spec fn clip_name(a: Asset) -> Seq<char> {
    match std_path_file_name(a.path@) {
        Some(n) => n,
        None => "UNKNOWN"@,
    }
}

/// Event `n` of the list: the clip's source in and out, its record in and out on
/// the track, and the name of its file.
pub open spec fn event_text(n: nat, c: Clip, name: Seq<char>) -> Seq<char> {
    let i = frame_at(c.in_point_ms);
    let o = frame_at(c.out_point_ms);
    let start = frame_at(c.track_offset_ms);
    padded(n, 3) + "  AX       V     C        "@ + timecode(i, 30) + " "@ + timecode(o, 30) + " "@ + timecode(start, 30)
        + " "@ + timecode((start + (o - i)) as nat, 30) + "\n* FROM CLIP NAME: "@ + name + "\n\n"@
}

/// The clips of all tracks, track after track.
pub open spec fn all_clips(tracks: Seq<TrackV>) -> Seq<Clip>
    decreases tracks.len(),
{
    if tracks.len() == 0 {
        Seq::empty()
    } else {
        all_clips(tracks.drop_last()) + tracks.last().clips
    }
}

/// The events of the clips `cs`, numbered from 1.
pub open spec fn events(m: Map<Ref, Asset>, cs: Seq<Clip>) -> Seq<char>
    decreases cs.len(),
{
    if cs.len() == 0 {
        Seq::empty()
    } else {
        events(m, cs.drop_last()) + event_text(cs.len(), cs.last(), clip_name(m[cs.last().asset_ref]))
    }
}

/// The events of the first clips begin the events of all of them.
proof fn lemma_events_prefix(m: Map<Ref, Asset>, cs: Seq<Clip>, j: int)
    requires
        0 <= j <= cs.len(),
    ensures
        events(m, cs.take(j)).len() <= events(m, cs).len(),
        events(m, cs).subrange(0, events(m, cs.take(j)).len() as int) == events(m, cs.take(j)),
    decreases cs.len(),
{
    if j < cs.len() {
        let prev = cs.drop_last();
        lemma_events_prefix(m, prev, j);
        assert(prev.take(j) =~= cs.take(j));
        let e = events(m, cs.take(j));
        assert(events(m, cs).subrange(0, e.len() as int) =~= events(m, prev).subrange(0, e.len() as int));
    } else {
        assert(cs.take(j) =~= cs);
        assert(events(m, cs).subrange(0, events(m, cs).len() as int) =~= events(m, cs));
    }
}

/// An event begins with its number, written with at least three digits.
proof fn lemma_event_starts(n: nat, c: Clip, name: Seq<char>)
    ensures
        padded(n, 3).len() <= event_text(n, c, name).len(),
        event_text(n, c, name).subrange(0, padded(n, 3).len() as int) == padded(n, 3),
{
    let num = padded(n, 3);
    let e = event_text(n, c, name);
    let rest = e.subrange(num.len() as int, e.len() as int);
    assert(e =~= num + ("  AX       V     C        "@ + timecode(frame_at(c.in_point_ms), 30) + " "@
        + timecode(frame_at(c.out_point_ms), 30) + " "@ + timecode(frame_at(c.track_offset_ms), 30) + " "@
        + timecode((frame_at(c.track_offset_ms) + (frame_at(c.out_point_ms) - frame_at(c.in_point_ms))) as nat, 30)
        + "\n* FROM CLIP NAME: "@ + name + "\n\n"@));
    assert(e.subrange(0, num.len() as int) =~= num);
}

/// The `k`-th event of `cs` (from 0) begins, after the events before it, with
/// `k + 1` written with at least three digits.
proof fn lemma_event_number(m: Map<Ref, Asset>, cs: Seq<Clip>, k: int)
    requires
        0 <= k < cs.len(),
    ensures
        events(m, cs.take(k)).len() + padded((k + 1) as nat, 3).len() <= events(m, cs).len(),
        events(m, cs).subrange(
            events(m, cs.take(k)).len() as int,
            (events(m, cs.take(k)).len() + padded((k + 1) as nat, 3).len()) as int,
        ) == padded((k + 1) as nat, 3),
{
    let c = cs.take(k + 1);
    assert(c.drop_last() =~= cs.take(k));
    assert(c.last() == cs[k]);
    let before = events(m, cs.take(k));
    let ev = event_text((k + 1) as nat, cs[k], clip_name(m[cs[k].asset_ref]));
    assert(events(m, c) == before + ev);
    lemma_event_starts((k + 1) as nat, cs[k], clip_name(m[cs[k].asset_ref]));
    lemma_events_prefix(m, cs, k + 1);
    let all = events(m, cs);
    let num = padded((k + 1) as nat, 3);
    let p = before.len() as int;
    assert forall|i: int| 0 <= i < num.len() implies #[trigger] all.subrange(p, p + num.len())[i] == num[i] by {
        assert(all.subrange(0, events(m, c).len() as int)[p + i] == events(m, c)[p + i]);
        assert(events(m, c)[p + i] == ev[i]);
        assert(ev.subrange(0, num.len() as int)[i] == ev[i]);
    }
    assert(all.subrange(p, p + num.len()) =~= num);
}

/// Events are numbered by their place in the list: in an exported list, the
/// `k`-th event (counting from 0, track after track, clip after clip) begins with
/// `k + 1` written with at least three digits, right after the header and the
/// events before it.
pub proof fn law_edl_events_numbered(m: Map<Ref, Asset>, tracks: Seq<TrackV>, k: int)
    requires
        0 <= k < all_clips(tracks).len(),
    ensures
        edl_spec(m, tracks) matches Ok(text) ==> ({
            let cs = all_clips(tracks);
            let p: int = (edl_header().len() + events(m, cs.take(k)).len()) as int;
            let num = padded((k + 1) as nat, 3);
            &&& p + num.len() <= text.len()
            &&& text.subrange(p, p + num.len()) == num
        }),
{
    let cs = all_clips(tracks);
    if edl_spec(m, tracks) is Ok {
        lemma_event_number(m, cs, k);
        let all = events(m, cs);
        let text = edl_header() + all;
        let h = edl_header().len() as int;
        let q = events(m, cs.take(k)).len() as int;
        let num = padded((k + 1) as nat, 3);
        assert(text.subrange(h + q, h + q + num.len()) =~= all.subrange(q, q + num.len()));
    }
}

/// The references of clips.
pub open spec fn clip_refs(cs: Seq<Clip>) -> Seq<Ref> {
    cs.map_values(|c: Clip| c.asset_ref)
}

/// The header of every list.
pub open spec fn edl_header() -> Seq<char> {
    "TITLE: AETHER Project\nFCM: NON-DROP FRAME\n\n"@
}

/// The list of a timeline, or the refusal of the first clip whose asset is not
/// registered.
pub open spec fn edl_spec(m: Map<Ref, Asset>, tracks: Seq<TrackV>) -> Result<Seq<char>, ErrorV> {
    let cs = all_clips(tracks);
    match first_missing(m, clip_refs(cs)) {
        Some(i) => Err(ErrorV::RefNotFound(cs[i].asset_ref)),
        None => Ok(edl_header() + events(m, cs)),
    }
}

/// The clips listed before the list stops: all, or those before the first whose
/// asset is not registered.
pub open spec fn listed(m: Map<Ref, Asset>, cs: Seq<Clip>) -> Seq<Clip> {
    match first_missing(m, clip_refs(cs)) {
        Some(i) => cs.take(i),
        None => cs,
    }
}

/// The times a clip can be listed with: it does not end before it starts (in
/// frames), and its times stay below 2^48 ms, where the frame count is exact.
pub open spec fn listable(c: Clip) -> bool {
    &&& frame_at(c.in_point_ms) <= frame_at(c.out_point_ms)
    &&& c.in_point_ms <= 0x1_0000_0000_0000
    &&& c.out_point_ms <= 0x1_0000_0000_0000
    &&& c.track_offset_ms <= 0x1_0000_0000_0000
}

fn frames_of(ms: u64) -> (f: u64)
    requires
        ms <= 0x1_0000_0000_0000,
    ensures
        f == frame_at(ms),
{
    ms * 3 / 100
}

fn event(n: u64, c: &Clip, name: &str) -> (r: String)
    requires
        listable(*c),
    ensures
        r@ == event_text(n as nat, *c, name@),
{
    let i = frames_of(c.in_point_ms);
    let o = frames_of(c.out_point_ms);
    let start = frames_of(c.track_offset_ms);
    let mut r = pad_decimal(n, 3);
    push_str(&mut r, "  AX       V     C        ");
    let t = format_timecode(i, 30);
    push_str(&mut r, t.as_str());
    push_str(&mut r, " ");
    let t = format_timecode(o, 30);
    push_str(&mut r, t.as_str());
    push_str(&mut r, " ");
    let t = format_timecode(start, 30);
    push_str(&mut r, t.as_str());
    push_str(&mut r, " ");
    let t = format_timecode(start + (o - i), 30);
    push_str(&mut r, t.as_str());
    push_str(&mut r, "\n* FROM CLIP NAME: ");
    push_str(&mut r, name);
    push_str(&mut r, "\n\n");
    r
}

/// The clips of all tracks of a timeline, track after track.
fn flat_clips(timeline: &Timeline) -> (r: Vec<Clip>)
    ensures
        r@ == all_clips(timeline@),
{
    let mut r: Vec<Clip> = Vec::new();
    let mut t: usize = 0;
    assert(timeline@.take(0) =~= Seq::<TrackV>::empty());
    while t < timeline.tracks.len()
        invariant
            t <= timeline.tracks.len(),
            r@ == all_clips(timeline@.take(t as int)),
        decreases timeline.tracks.len() - t,
    {
        let track = &timeline.tracks[t];
        proof {
            lemma_all_clips_take(timeline@, t as int);
            assert(timeline@[t as int] == track@);
        }
        let ghost base = r@;
        let mut j: usize = 0;
        while j < track.clips.len()
            invariant
                j <= track.clips.len(),
                r@ == base + track.clips@.take(j as int),
            decreases track.clips.len() - j,
        {
            r.push(track.clips[j]);
            j = j + 1;
            assert(r@ =~= base + track.clips@.take(j as int));
        }
        assert(track.clips@.take(j as int) =~= track.clips@);
        t = t + 1;
    }
    assert(timeline@.take(t as int) =~= timeline@);
    r
}

/// The edit decision list of a timeline: a header, then one event per clip, track
/// after track; refused at the first clip whose asset is not registered.
pub fn edl_text(timeline: &Timeline, registry: &RefRegistry) -> (r: Result<String, AetherError>)
    requires
        registry.wf(),
        all_clips(timeline@).len() < 0x7fff_ffff,
        forall|k: int| 0 <= k < listed(registry@, all_clips(timeline@)).len() ==> listable(
            #[trigger] listed(registry@, all_clips(timeline@))[k],
        ),
    ensures
        match edl_spec(registry@, timeline@) {
            Ok(t) => r matches Ok(x) && x@ == t,
            Err(e) => r matches Err(x) && x@ == e,
        },
{
    let ghost m = registry@;
    let clips = flat_clips(timeline);
    let ghost cs = clips@;
    let mut out = owned("TITLE: AETHER Project\nFCM: NON-DROP FRAME\n\n");
    let mut n: usize = 0;
    assert(cs.take(0) =~= Seq::<Clip>::empty());
    while n < clips.len()
        invariant
            registry.wf(),
            m == registry@,
            cs == clips@,
            cs == all_clips(timeline@),
            cs.len() < 0x7fff_ffff,
            forall|k: int| 0 <= k < listed(m, cs).len() ==> listable(#[trigger] listed(m, cs)[k]),
            n <= cs.len(),
            forall|k: int| 0 <= k < n ==> m.contains_key(#[trigger] cs[k].asset_ref),
            out@ == edl_header() + events(m, cs.take(n as int)),
        decreases clips.len() - n,
    {
        let c = &clips[n];
        let asset = match registry.resolve(&c.asset_ref) {
            Ok(a) => a,
            Err(e) => {
                proof {
                    assert forall|k: int| 0 <= k < n implies !!m.contains_key(#[trigger] clip_refs(cs)[k]) by {
                        assert(clip_refs(cs)[k] == cs[k].asset_ref);
                    }
                    assert(clip_refs(cs)[n as int] == c.asset_ref);
                    crate::text::lemma_first_index(clip_refs(cs), |r: Ref| !m.contains_key(r), n as int);
                }
                return Err(e);
            },
        };
        proof {
            lemma_listed_prefix(m, cs, n as int);
        }
        let name = match path_file_name(asset.path.as_str()) {
            Some(x) => x,
            None => owned("UNKNOWN"),
        };
        let line = event((n + 1) as u64, c, name.as_str());
        push_str(&mut out, line.as_str());
        proof {
            assert(cs.take(n + 1).drop_last() =~= cs.take(n as int));
            assert(cs.take(n + 1).last() == cs[n as int]);
        }
        n = n + 1;
    }
    proof {
        assert(cs.take(n as int) =~= cs);
        assert forall|k: int| 0 <= k < clip_refs(cs).len() implies !!m.contains_key(#[trigger] clip_refs(cs)[k]) by {
            assert(clip_refs(cs)[k] == cs[k].asset_ref);
        }
        crate::text::lemma_first_index_none(clip_refs(cs), |r: Ref| !m.contains_key(r));
    }
    Ok(out)
}

proof fn lemma_all_clips_take(tracks: Seq<TrackV>, t: int)
    requires
        0 <= t < tracks.len(),
    ensures
        all_clips(tracks.take(t + 1)) == all_clips(tracks.take(t)) + tracks[t].clips,
{
    assert(tracks.take(t + 1).drop_last() =~= tracks.take(t));
}

proof fn lemma_listed_prefix(m: Map<Ref, Asset>, cs: Seq<Clip>, n: int)
    requires
        0 <= n < cs.len(),
        forall|k: int| 0 <= k <= n ==> m.contains_key(#[trigger] cs[k].asset_ref),
    ensures
        n < listed(m, cs).len(),
        listed(m, cs)[n] == cs[n],
{
    crate::text::lemma_first_index_props(clip_refs(cs), |r: Ref| !m.contains_key(r));
    match first_missing(m, clip_refs(cs)) {
        Some(i) => {
            assert(clip_refs(cs)[i] == cs[i].asset_ref);
            if i <= n {
                assert(m.contains_key(cs[i].asset_ref));
            }
        },
        None => {},
    }
}

} // verus!
