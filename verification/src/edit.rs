//! Decisions of the editing commands: the project settings that `init` writes, how an
//! imported file is classified, which assets each media operation accepts and which
//! reference its result gets, the track a concatenation lays out and the graph an
//! overlay builds. The media work itself (decoding, rendering, encoding) is done by
//! the caller on the assets these functions hand out.

use vstd::prelude::*;
use crate::dsl::{opt_view, Command, CommandV};
use crate::refs::{ref_text, AetherError, ErrorV, Ref, RefKind};
use crate::registry::{Asset, AssetKind, RefRegistry};
use crate::graph::{edge, is_path, reachable, BlendMode, CompositionGraph, Connection, Node, NodeId, NodeKind, TransitionKind};
use crate::text::{chars_of, decimal, owned, parse_u32, push_str, str_eq, to_lowercase, u32_literal, u64_decimal, unicode_lowercase};
use crate::timeline::{Clip, Timeline, Track, TrackKind, TrackV};

verus! {

// ---------------------------------------------------------------------------
// Project settings
// ---------------------------------------------------------------------------

/// The global settings of a project. `fps_bits` is the bit pattern of the
/// single-precision frame rate.
#[derive(Debug, Clone)]
pub struct ProjectSettings {
    pub fps_bits: u32,
    pub width: u32,
    pub height: u32,
    pub colorspace: String,
}

/// The bit pattern of the single-precision value 30.0.
pub const FPS_30_BITS: u32 = 0x41f0_0000;

impl Default for ProjectSettings {
    /// 30 frames per second, 1920x1080, `srgb`.
    fn default() -> (s: Self)
        ensures
            s.fps_bits == FPS_30_BITS,
            s.width == 1920,
            s.height == 1080,
            s.colorspace@ == "srgb"@,
    {
        ProjectSettings { fps_bits: FPS_30_BITS, width: 1920, height: 1080, colorspace: owned("srgb") }
    }
}

/// The position of the first `x` in `s`, or its length.
pub open spec fn char_index(s: Seq<char>, x: char) -> int
    decreases s.len(),
{
    if s.len() == 0 {
        0
    } else if s[0] == x {
        0
    } else {
        1 + char_index(s.drop_first(), x)
    }
}

pub(crate) proof fn lemma_char_index(s: Seq<char>, x: char, k: int)
    requires
        0 <= k <= s.len(),
        forall|j: int| 0 <= j < k ==> s[j] != x,
        k == s.len() || s[k] == x,
    ensures
        char_index(s, x) == k,
    decreases s.len(),
{
    if s.len() > 0 && k > 0 {
        assert forall|j: int| 0 <= j < k - 1 implies s.drop_first()[j] != x by {
            assert(s.drop_first()[j] == s[j + 1]);
        }
        if k < s.len() {
            assert(s.drop_first()[k - 1] == s[k]);
        }
        lemma_char_index(s.drop_first(), x, k - 1);
    }
}

/// The width and height a resolution text `WxH` gives: exactly one `x`, with a
/// `u32` on each side; `None` for any other text.
pub open spec fn resolution_spec(res: Seq<char>) -> Option<(u32, u32)> {
    let i = char_index(res, 'x');
    let rest = res.skip(i + 1);
    if i < res.len() && char_index(rest, 'x') == rest.len() {
        match (u32_literal(res.take(i)), u32_literal(rest)) {
            (Some(w), Some(h)) => Some((w, h)),
            _ => None,
        }
    } else {
        None
    }
}

/// A resolution written as a width, `x` and a height, in decimal, reads back as
/// that width and that height, in that order.
pub proof fn law_resolution_round_trip(w: u32, h: u32)
    ensures
        resolution_spec(decimal(w as nat) + seq!['x'] + decimal(h as nat)) == Some((w, h)),
{
    let dw = decimal(w as nat);
    let dh = decimal(h as nat);
    crate::refs::lemma_decimal_digits(w as nat);
    crate::refs::lemma_decimal_digits(h as nat);
    let res = dw + seq!['x'] + dh;
    assert forall|j: int| 0 <= j < dw.len() implies res[j] != 'x' by {
        assert(res[j] == dw[j]);
        assert(crate::text::is_digit(dw[j]));
    }
    lemma_char_index(res, 'x', dw.len() as int);
    let i = dw.len() as int;
    let rest = res.skip(i + 1);
    assert(rest =~= dh);
    assert(res.take(i) =~= dw);
    assert forall|j: int| 0 <= j < dh.len() implies dh[j] != 'x' by {
        assert(crate::text::is_digit(dh[j]));
    }
    lemma_char_index(dh, 'x', dh.len() as int);
    assert(crate::text::is_digit(dw[0]) && crate::text::is_digit(dh[0]));
}

/// Reads a resolution `WxH`.
pub fn parse_resolution(res: &str) -> (r: Option<(u32, u32)>)
    ensures
        r == resolution_spec(res@),
{
    let c = chars_of(res);
    let mut i: usize = 0;
    while i < c.len() && c[i] != 'x'
        invariant
            i <= c.len(),
            c@ == res@,
            forall|j: int| 0 <= j < i ==> c@[j] != 'x',
        decreases c.len() - i,
    {
        i = i + 1;
    }
    proof {
        lemma_char_index(c@, 'x', i as int);
    }
    if i == c.len() {
        return None;
    }
    let mut left: Vec<char> = Vec::new();
    let mut k: usize = 0;
    while k < i
        invariant
            k <= i < c.len(),
            left@ == c@.take(k as int),
            c@ == res@,
            char_index(c@, 'x') == i,
        decreases i - k,
    {
        left.push(c[k]);
        k = k + 1;
        assert(left@ =~= c@.take(k as int));
    }
    let mut right: Vec<char> = Vec::new();
    let mut k: usize = i + 1;
    while k < c.len()
        invariant
            i < k <= c.len(),
            right@ == c@.subrange(i + 1, k as int),
            c@ == res@,
            char_index(c@, 'x') == i,
            forall|j: int| 0 <= j < right@.len() ==> right@[j] != 'x',
        decreases c.len() - k,
    {
        if c[k] == 'x' {
            proof {
                let rest = c@.skip(i + 1);
                assert forall|j: int| 0 <= j < k - i - 1 implies rest[j] != 'x' by {
                    assert(rest[j] == right@[j]);
                }
                assert(rest[k - i - 1] == c@[k as int]);
                lemma_char_index(rest, 'x', k - i - 1);
            }
            return None;
        }
        right.push(c[k]);
        k = k + 1;
        assert(right@ =~= c@.subrange(i + 1, k as int));
    }
    proof {
        assert(right@ =~= c@.skip(i + 1));
        assert(left@ =~= c@.take(i as int));
        lemma_char_index(right@, 'x', right@.len() as int);
    }
    match (parse_u32(&left), parse_u32(&right)) {
        (Some(w), Some(h)) => Some((w, h)),
        _ => None,
    }
}

impl ProjectSettings {
    /// A copy of the settings.
    pub fn duplicate(&self) -> (c: Self)
        ensures
            c.fps_bits == self.fps_bits,
            c.width == self.width,
            c.height == self.height,
            c.colorspace@ == self.colorspace@,
    {
        ProjectSettings { fps_bits: self.fps_bits, width: self.width, height: self.height, colorspace: self.colorspace.clone() }
    }

    /// Applies `init`: the frame rate and the colorspace when given, the resolution
    /// when given and readable as `WxH`.
    pub fn apply_init(&mut self, fps_bits: Option<u32>, resolution: &Option<String>, colorspace: &Option<String>)
        ensures
            final(self).fps_bits == (match fps_bits {
                Some(b) => b,
                None => old(self).fps_bits,
            }),
            (final(self).width, final(self).height) == (match resolution {
                Some(t) => match resolution_spec(t@) {
                    Some(wh) => wh,
                    None => (old(self).width, old(self).height),
                },
                None => (old(self).width, old(self).height),
            }),
            final(self).colorspace@ == (match colorspace {
                Some(c) => c@,
                None => old(self).colorspace@,
            }),
    {
        if let Some(b) = fps_bits {
            self.fps_bits = b;
        }
        if let Some(t) = resolution {
            if let Some((w, h)) = parse_resolution(t.as_str()) {
                self.width = w;
                self.height = h;
            }
        }
        if let Some(c) = colorspace {
            self.colorspace = c.clone();
        }
    }
}

// ---------------------------------------------------------------------------
// Imports
// ---------------------------------------------------------------------------

/// The name given to the extension that `std::path::Path::extension` finds in a
/// path, as text.
pub uninterp spec fn std_path_extension(path: Seq<char>) -> Option<Seq<char>>;

/// The extension of the file a path names (`Path::extension`): the part of the file
/// name after its last `.`, if it has one that is not its first character.
#[verifier::external_body]
pub(crate) fn path_extension(path: &str) -> (r: Option<String>)
    ensures
        opt_view(r) == std_path_extension(path@),
{
    match std::path::Path::new(path).extension() {
        Some(e) => Some(e.to_string_lossy().into_owned()),
        None => None,
    }
}

/// The kind of reference an imported file gets from its lowercased extension:
/// audio for `wav`, `mp3`, `ogg`, `flac`, `aac`; image for `png`, `jpg`, `jpeg`;
/// video for anything else.
pub open spec fn kind_for_extension(lower: Seq<char>) -> RefKind {
    if lower == "wav"@ || lower == "mp3"@ || lower == "ogg"@ || lower == "flac"@ || lower == "aac"@ {
        RefKind::Audio
    } else if lower == "png"@ || lower == "jpg"@ || lower == "jpeg"@ {
        RefKind::Image
    } else {
        RefKind::Video
    }
}

/// The kind of reference for a file with extension `ext` (none counting as empty).
pub open spec fn import_kind_spec(ext: Option<Seq<char>>) -> RefKind {
    match ext {
        Some(e) => kind_for_extension(unicode_lowercase(e)),
        None => kind_for_extension(unicode_lowercase(Seq::empty())),
    }
}

/// A file is imported as audio when its extension lowercases to `wav`, `mp3`,
/// `ogg`, `flac` or `aac`, as an image when it lowercases to `png`, `jpg` or
/// `jpeg`, and as video otherwise (a file without extension too).
pub proof fn law_import_kind(path: Seq<char>)
    ensures
        ({
            let k = import_kind_spec(std_path_extension(path));
            let lower = match std_path_extension(path) {
                Some(e) => unicode_lowercase(e),
                None => unicode_lowercase(Seq::empty()),
            };
            &&& (lower == "wav"@ || lower == "mp3"@ || lower == "ogg"@ || lower == "flac"@ || lower == "aac"@)
                ==> k == RefKind::Audio
            &&& (lower == "png"@ || lower == "jpg"@ || lower == "jpeg"@) ==> k == RefKind::Image
            &&& !(lower == "wav"@ || lower == "mp3"@ || lower == "ogg"@ || lower == "flac"@ || lower == "aac"@
                || lower == "png"@ || lower == "jpg"@ || lower == "jpeg"@) ==> k == RefKind::Video
        }),
{
    reveal_strlit("wav");
    reveal_strlit("mp3");
    reveal_strlit("ogg");
    reveal_strlit("flac");
    reveal_strlit("aac");
    reveal_strlit("png");
    reveal_strlit("jpg");
    reveal_strlit("jpeg");
    let lower = match std_path_extension(path) {
        Some(e) => unicode_lowercase(e),
        None => unicode_lowercase(Seq::empty()),
    };
    assert(import_kind_spec(std_path_extension(path)) == kind_for_extension(lower));
    if lower == "png"@ || lower == "jpg"@ || lower == "jpeg"@ {
        assert(lower[0] == 'p' || lower[0] == 'j');
        assert(!(lower == "wav"@ || lower == "mp3"@ || lower == "ogg"@ || lower == "flac"@ || lower == "aac"@));
    }
}

/// The kind of reference an import gives a file with extension `ext`.
pub fn import_kind(ext: Option<&str>) -> (k: RefKind)
    ensures
        k == import_kind_spec(match ext {
            Some(e) => Some(e@),
            None => None,
        }),
{
    let lower = match ext {
        Some(e) => to_lowercase(e),
        None => to_lowercase(""),
    };
    proof {
        reveal_strlit("");
        assert(""@ =~= Seq::<char>::empty());
    }
    let l = lower.as_str();
    proof {
        reveal_strlit("wav");
        reveal_strlit("mp3");
        reveal_strlit("ogg");
        reveal_strlit("flac");
        reveal_strlit("aac");
        reveal_strlit("png");
        reveal_strlit("jpg");
        reveal_strlit("jpeg");
    }
    if str_eq(l, "wav") || str_eq(l, "mp3") || str_eq(l, "ogg") || str_eq(l, "flac") || str_eq(l, "aac") {
        RefKind::Audio
    } else if str_eq(l, "png") || str_eq(l, "jpg") || str_eq(l, "jpeg") {
        RefKind::Image
    } else {
        RefKind::Video
    }
}

/// The kind of reference an import gives the file at `path`.
pub fn import_ref_kind(path: &str) -> (k: RefKind)
    ensures
        k == import_kind_spec(std_path_extension(path@)),
{
    let ext = path_extension(path);
    match &ext {
        Some(e) => import_kind(Some(e.as_str())),
        None => import_kind(None),
    }
}


// ---------------------------------------------------------------------------
// Media operations
// ---------------------------------------------------------------------------

/// A media operation to run: the assets it reads and the reference under which its
/// result is registered.
#[derive(Debug, Clone)]
pub enum EditStep {
    /// Import the file as audio, image or video, by the kind of `new_ref`.
    Import { new_ref: Ref },
    /// Trim a video or audio asset.
    Trim { source: Asset, new_ref: Ref },
    /// Normalize an audio asset to the requested loudness.
    Normalize { source: Asset, new_ref: Ref },
    /// Composite one asset over another.
    Composite { base: Asset, overlay: Asset, new_ref: Ref },
    /// Paint a canvas of one color.
    Canvas { new_ref: Ref },
    /// Draw text on an image.
    DrawText { source: Asset, new_ref: Ref },
    /// Render an asset into the project's export directory.
    Export { source: Asset },
    /// Change the playback speed of an asset.
    Speed { source: Asset, new_ref: Ref },
    /// Filter an audio asset with an equalizer band.
    Equalize { source: Asset, new_ref: Ref },
    /// Compress the dynamics of an audio asset.
    Compress { source: Asset, new_ref: Ref },
    /// Mix several audio assets into one.
    MixTracks { sources: Vec<Asset>, new_ref: Ref },
}

/// A media operation, with its assets as values.
pub enum StepV {
    Import { new_ref: Ref },
    Trim { source: Asset, new_ref: Ref },
    Normalize { source: Asset, new_ref: Ref },
    Composite { base: Asset, overlay: Asset, new_ref: Ref },
    Canvas { new_ref: Ref },
    DrawText { source: Asset, new_ref: Ref },
    Export { source: Asset },
    Speed { source: Asset, new_ref: Ref },
    Equalize { source: Asset, new_ref: Ref },
    Compress { source: Asset, new_ref: Ref },
    MixTracks { sources: Seq<Asset>, new_ref: Ref },
}

impl View for EditStep {
    type V = StepV;

    open spec fn view(&self) -> StepV {
        match *self {
            EditStep::Import { new_ref } => StepV::Import { new_ref },
            EditStep::Trim { source, new_ref } => StepV::Trim { source, new_ref },
            EditStep::Normalize { source, new_ref } => StepV::Normalize { source, new_ref },
            EditStep::Composite { base, overlay, new_ref } => StepV::Composite { base, overlay, new_ref },
            EditStep::Canvas { new_ref } => StepV::Canvas { new_ref },
            EditStep::DrawText { source, new_ref } => StepV::DrawText { source, new_ref },
            EditStep::Export { source } => StepV::Export { source },
            EditStep::Speed { source, new_ref } => StepV::Speed { source, new_ref },
            EditStep::Equalize { source, new_ref } => StepV::Equalize { source, new_ref },
            EditStep::Compress { source, new_ref } => StepV::Compress { source, new_ref },
            EditStep::MixTracks { sources, new_ref } => StepV::MixTracks { sources: sources@, new_ref },
        }
    }
}

/// The reference the registry hands out next for `k`.
pub open spec fn fresh_ref(reg: RefRegistry, k: RefKind) -> Ref {
    Ref { kind: k, id: reg.counter(k) }
}

/// The first of `refs` that the registry does not know.
pub open spec fn first_missing(reg: Map<Ref, Asset>, refs: Seq<Ref>) -> Option<int> {
    crate::text::first_index(refs, |r: Ref| !reg.contains_key(r))
}

/// The kind of reference a media operation allocates before it can fail or
/// succeed; `None` when it allocates none.
pub open spec fn allocation(reg: RefRegistry, c: CommandV, path_exists: bool) -> Option<RefKind> {
    let m = reg@;
    match c {
        CommandV::Import { path } => if path_exists {
            Some(import_kind_spec(std_path_extension(path)))
        } else {
            None
        },
        CommandV::Trim { r, .. } => if m.contains_key(r) { Some(r.kind) } else { None },
        CommandV::Mix { r, .. } => if m.contains_key(r) && m[r].kind == AssetKind::Audio { Some(RefKind::Audio) } else { None },
        CommandV::Composite { base, overlay, .. } => if m.contains_key(base) && m.contains_key(overlay) {
            Some(RefKind::Video)
        } else {
            None
        },
        CommandV::Canvas { .. } => Some(RefKind::Image),
        CommandV::DrawText { r, .. } => if m.contains_key(r) && m[r].kind == AssetKind::Image { Some(RefKind::Image) } else { None },
        CommandV::Speed { r, .. } => if m.contains_key(r) { Some(RefKind::Animation) } else { None },
        CommandV::Eq { r, .. } => if m.contains_key(r) && m[r].kind == AssetKind::Audio { Some(RefKind::Audio) } else { None },
        CommandV::Compress { r, .. } => if m.contains_key(r) && m[r].kind == AssetKind::Audio { Some(RefKind::Audio) } else { None },
        CommandV::MixTracks { .. } => Some(RefKind::Audio),
        _ => None,
    }
}


/// The refusal of a reference the registry does not know, or its asset.
pub open spec fn lookup(m: Map<Ref, Asset>, r: Ref) -> Result<Asset, ErrorV> {
    if m.contains_key(r) {
        Ok(m[r])
    } else {
        Err(ErrorV::RefNotFound(r))
    }
}

/// What a media command asks of the registry `reg` (its assets, and the next
/// reference of each kind): the operation to run, or the refusal; `None` for a
/// command that runs no media operation. `path_exists` tells whether an imported
/// file exists.
pub open spec fn edit_spec(reg: RefRegistry, c: CommandV, path_exists: bool) -> Option<Result<StepV, ErrorV>> {
    let m = reg@;
    match c {
        CommandV::Import { path } => Some(
            if !path_exists {
                Err(ErrorV::IoError(path, "File does not exist"@))
            } else {
                Ok(StepV::Import { new_ref: fresh_ref(reg, import_kind_spec(std_path_extension(path))) })
            },
        ),
        CommandV::Trim { r, .. } => Some(
            match lookup(m, r) {
                Err(e) => Err(e),
                Ok(a) => match a.kind {
                    AssetKind::Image => Err(ErrorV::InvalidCommand("Cannot trim image asset"@)),
                    AssetKind::Animation => Err(ErrorV::InvalidCommand("Cannot trim animation asset"@)),
                    _ => Ok(StepV::Trim { source: a, new_ref: fresh_ref(reg, r.kind) }),
                },
            },
        ),
        CommandV::Mix { r, .. } => Some(
            match lookup(m, r) {
                Err(e) => Err(e),
                Ok(a) => if a.kind != AssetKind::Audio {
                    Err(ErrorV::InvalidCommand("Mix command is only supported for audio assets"@))
                } else {
                    Ok(StepV::Normalize { source: a, new_ref: fresh_ref(reg, RefKind::Audio) })
                },
            },
        ),
        CommandV::Composite { base, overlay, .. } => Some(
            match (lookup(m, base), lookup(m, overlay)) {
                (Err(e), _) => Err(e),
                (Ok(_), Err(e)) => Err(e),
                (Ok(b), Ok(o)) => Ok(StepV::Composite { base: b, overlay: o, new_ref: fresh_ref(reg, RefKind::Video) }),
            },
        ),
        CommandV::Canvas { .. } => Some(Ok(StepV::Canvas { new_ref: fresh_ref(reg, RefKind::Image) })),
        CommandV::DrawText { r, .. } => Some(
            match lookup(m, r) {
                Err(e) => Err(e),
                Ok(a) => if a.kind != AssetKind::Image {
                    Err(ErrorV::InvalidCommand("DrawText is only supported on image assets"@))
                } else {
                    Ok(StepV::DrawText { source: a, new_ref: fresh_ref(reg, RefKind::Image) })
                },
            },
        ),
        CommandV::Export { r, .. } => Some(
            match lookup(m, r) {
                Err(e) => Err(e),
                Ok(a) => Ok(StepV::Export { source: a }),
            },
        ),
        CommandV::Speed { r, .. } => Some(
            match lookup(m, r) {
                Err(e) => Err(e),
                Ok(a) => Ok(StepV::Speed { source: a, new_ref: fresh_ref(reg, RefKind::Animation) }),
            },
        ),
        CommandV::Eq { r, .. } => Some(
            match lookup(m, r) {
                Err(e) => Err(e),
                Ok(a) => if a.kind != AssetKind::Audio {
                    Err(ErrorV::InvalidCommand("Eq is only supported for audio assets"@))
                } else {
                    Ok(StepV::Equalize { source: a, new_ref: fresh_ref(reg, RefKind::Audio) })
                },
            },
        ),
        CommandV::Compress { r, .. } => Some(
            match lookup(m, r) {
                Err(e) => Err(e),
                Ok(a) => if a.kind != AssetKind::Audio {
                    Err(ErrorV::InvalidCommand("Compress is only supported for audio assets"@))
                } else {
                    Ok(StepV::Compress { source: a, new_ref: fresh_ref(reg, RefKind::Audio) })
                },
            },
        ),
        CommandV::MixTracks { refs, .. } => Some(
            match first_missing(m, refs) {
                Some(i) => Err(ErrorV::RefNotFound(refs[i])),
                None => Ok(StepV::MixTracks { sources: refs.map_values(|r: Ref| m[r]), new_ref: fresh_ref(reg, RefKind::Audio) }),
            },
        ),
        _ => None,
    }
}

/// `r` is what `e` describes.
pub open spec fn step_outcome(r: Option<Result<EditStep, AetherError>>, e: Option<Result<StepV, ErrorV>>) -> bool {
    match e {
        None => r is None,
        Some(Ok(s)) => r matches Some(Ok(x)) && x@ == s,
        Some(Err(v)) => r matches Some(Err(x)) && x@ == v,
    }
}

/// The counters of `after` are those of `before`, but for kind `k` when given,
/// which moved to the next id.
pub open spec fn counters_after(before: RefRegistry, after: RefRegistry, k: Option<RefKind>) -> bool {
    match k {
        Some(k) => after.counter(k) == crate::registry::next_counter(before.counter(k))
            && forall|j: RefKind| j != k ==> #[trigger] after.counter(j) == before.counter(j),
        None => forall|j: RefKind| #[trigger] after.counter(j) == before.counter(j),
    }
}

fn known(registry: &RefRegistry, r: Ref) -> (res: Result<Asset, AetherError>)
    requires
        registry.wf(),
    ensures
        match lookup(registry@, r) {
            Ok(a) => res == Ok::<Asset, AetherError>(a),
            Err(v) => res matches Err(x) && x@ == v,
        },
{
    registry.resolve(&r)
}

fn refused(m: &str) -> (r: Option<Result<EditStep, AetherError>>)
    ensures
        r matches Some(Err(x)) && x@ == ErrorV::InvalidCommand(m@),
{
    Some(Err(AetherError::InvalidCommand(owned(m))))
}

/// Decides the media operation of `cmd` on the registry: resolves the assets it
/// reads, checks their kinds and allocates the reference of the result (in the
/// order the engine does: the registered assets never change, and a refusal may
/// come after the allocation).
pub fn plan_edit(registry: &mut RefRegistry, cmd: &Command, path_exists: bool) -> (r: Option<Result<EditStep, AetherError>>)
    requires
        old(registry).wf(),
    ensures
        final(registry).wf(),
        final(registry)@ == old(registry)@,
        step_outcome(r, edit_spec(*old(registry), cmd@, path_exists)),
        counters_after(*old(registry), *final(registry), allocation(*old(registry), cmd@, path_exists)),
{
    let ghost before = *registry;
    match cmd {
        Command::Import { path } => {
            if !path_exists {
                return Some(Err(AetherError::IoError(path.clone(), owned("File does not exist"))));
            }
            let kind = import_ref_kind(path.as_str());
            let new_ref = registry.allocate(kind);
            Some(Ok(EditStep::Import { new_ref }))
        },
        Command::Trim { r, .. } => {
            let source = match known(registry, *r) {
                Ok(a) => a,
                Err(e) => return Some(Err(e)),
            };
            let new_ref = registry.allocate(r.kind);
            match source.kind {
                AssetKind::Image => refused("Cannot trim image asset"),
                AssetKind::Animation => refused("Cannot trim animation asset"),
                _ => Some(Ok(EditStep::Trim { source, new_ref })),
            }
        },
        Command::Mix { r, .. } => {
            let source = match known(registry, *r) {
                Ok(a) => a,
                Err(e) => return Some(Err(e)),
            };
            if source.kind != AssetKind::Audio {
                return refused("Mix command is only supported for audio assets");
            }
            let new_ref = registry.allocate(RefKind::Audio);
            Some(Ok(EditStep::Normalize { source, new_ref }))
        },
        Command::Composite { base, overlay, .. } => {
            let b = match known(registry, *base) {
                Ok(a) => a,
                Err(e) => return Some(Err(e)),
            };
            let o = match known(registry, *overlay) {
                Ok(a) => a,
                Err(e) => return Some(Err(e)),
            };
            let new_ref = registry.allocate(RefKind::Video);
            Some(Ok(EditStep::Composite { base: b, overlay: o, new_ref }))
        },
        Command::Canvas { .. } => {
            let new_ref = registry.allocate(RefKind::Image);
            Some(Ok(EditStep::Canvas { new_ref }))
        },
        Command::DrawText { r, .. } => {
            let source = match known(registry, *r) {
                Ok(a) => a,
                Err(e) => return Some(Err(e)),
            };
            if source.kind != AssetKind::Image {
                return refused("DrawText is only supported on image assets");
            }
            let new_ref = registry.allocate(RefKind::Image);
            Some(Ok(EditStep::DrawText { source, new_ref }))
        },
        Command::Export { r, .. } => {
            match known(registry, *r) {
                Ok(source) => Some(Ok(EditStep::Export { source })),
                Err(e) => Some(Err(e)),
            }
        },
        Command::Speed { r, .. } => {
            let source = match known(registry, *r) {
                Ok(a) => a,
                Err(e) => return Some(Err(e)),
            };
            let new_ref = registry.allocate(RefKind::Animation);
            Some(Ok(EditStep::Speed { source, new_ref }))
        },
        Command::Eq { r, .. } => {
            let source = match known(registry, *r) {
                Ok(a) => a,
                Err(e) => return Some(Err(e)),
            };
            if source.kind != AssetKind::Audio {
                return refused("Eq is only supported for audio assets");
            }
            let new_ref = registry.allocate(RefKind::Audio);
            Some(Ok(EditStep::Equalize { source, new_ref }))
        },
        Command::Compress { r, .. } => {
            let source = match known(registry, *r) {
                Ok(a) => a,
                Err(e) => return Some(Err(e)),
            };
            if source.kind != AssetKind::Audio {
                return refused("Compress is only supported for audio assets");
            }
            let new_ref = registry.allocate(RefKind::Audio);
            Some(Ok(EditStep::Compress { source, new_ref }))
        },
        Command::MixTracks { refs, volumes, pans } => {
            let new_ref = registry.allocate(RefKind::Audio);
            let ghost m = before@;
            let mut sources: Vec<Asset> = Vec::new();
            let mut i: usize = 0;
            while i < refs.len()
                invariant
                    registry.wf(),
                    registry@ == m,
                    before == *old(registry),
                    m == before@,
                    new_ref == fresh_ref(before, RefKind::Audio),
                    counters_after(before, *registry, Some(RefKind::Audio)),
                    cmd@ == (CommandV::MixTracks { refs: refs@, volumes: crate::dsl::string_views(volumes@), pans: crate::dsl::string_views(pans@) }),
                    i <= refs.len(),
                    sources@ == refs@.take(i as int).map_values(|r: Ref| m[r]),
                    forall|j: int| 0 <= j < i ==> m.contains_key(#[trigger] refs@[j]),
                decreases refs.len() - i,
            {
                match known(registry, refs[i]) {
                    Ok(a) => {
                        sources.push(a);
                    },
                    Err(e) => {
                        proof {
                            crate::text::lemma_first_index(refs@, |r: Ref| !m.contains_key(r), i as int);
                        }
                        return Some(Err(e));
                    },
                }
                i = i + 1;
                assert(sources@ =~= refs@.take(i as int).map_values(|r: Ref| m[r]));
            }
            proof {
                crate::text::lemma_first_index_none(refs@, |r: Ref| !m.contains_key(r));
                assert(refs@.take(i as int) =~= refs@);
            }
            Some(Ok(EditStep::MixTracks { sources, new_ref }))
        },
        _ => None,
    }
}

/// Decides the media operation of `cmd` as `plan_edit` does, as one step: a refusal
/// leaves the registry as it was, the reference it allocated given back, so that
/// the next allocation hands it out again.
pub fn plan_edit_atomically(registry: &mut RefRegistry, cmd: &Command, path_exists: bool) -> (r: Option<Result<EditStep, AetherError>>)
    requires
        old(registry).wf(),
    ensures
        final(registry).wf(),
        final(registry)@ == old(registry)@,
        step_outcome(r, edit_spec(*old(registry), cmd@, path_exists)),
        r matches Some(Err(_)) ==> forall|k: RefKind| #[trigger] final(registry).counter(k) == old(registry).counter(k),
        !(r matches Some(Err(_))) ==> counters_after(*old(registry), *final(registry), allocation(*old(registry), cmd@, path_exists)),
{
    let saved = registry.duplicate();
    let r = plan_edit(registry, cmd, path_exists);
    match r {
        Some(Err(e)) => {
            *registry = saved;
            Some(Err(e))
        },
        other => other,
    }
}


/// The start of the message of a media operation whose result was registered;
/// none for an export.
pub open spec fn registered_prefix(s: StepV) -> Option<Seq<char>> {
    match s {
        StepV::Import { .. } => Some("Imported asset successfully registered as "@),
        StepV::Trim { .. } => Some("Trimmed asset successfully registered as "@),
        StepV::Normalize { .. } => Some("Mixed audio asset successfully registered as "@),
        StepV::Composite { .. } => Some("Composited asset successfully registered as "@),
        StepV::Canvas { .. } => Some("Canvas successfully registered as "@),
        StepV::DrawText { .. } => Some("Text overlay asset successfully registered as "@),
        StepV::Export { .. } => None,
        StepV::Speed { .. } => Some("Speed-adjusted asset successfully registered as "@),
        StepV::Equalize { .. } => Some("EQ filtered audio asset registered as "@),
        StepV::Compress { .. } => Some("Compressed audio asset registered as "@),
        StepV::MixTracks { .. } => Some("Mixed track audio asset registered as "@),
    }
}

/// The message of a media operation whose result was registered as `r`; none for an
/// export, whose message names the file written.
pub fn registered_message(step: &EditStep, r: Ref) -> (m: Option<String>)
    ensures
        match registered_prefix(step@) {
            Some(p) => m matches Some(x) && x@ == p + ref_text(r),
            None => m is None,
        },
{
    let prefix = match step {
        EditStep::Import { .. } => "Imported asset successfully registered as ",
        EditStep::Trim { .. } => "Trimmed asset successfully registered as ",
        EditStep::Normalize { .. } => "Mixed audio asset successfully registered as ",
        EditStep::Composite { .. } => "Composited asset successfully registered as ",
        EditStep::Canvas { .. } => "Canvas successfully registered as ",
        EditStep::DrawText { .. } => "Text overlay asset successfully registered as ",
        EditStep::Export { .. } => return None,
        EditStep::Speed { .. } => "Speed-adjusted asset successfully registered as ",
        EditStep::Equalize { .. } => "EQ filtered audio asset registered as ",
        EditStep::Compress { .. } => "Compressed audio asset registered as ",
        EditStep::MixTracks { .. } => "Mixed track audio asset registered as ",
    };
    let mut m = owned(prefix);
    let t = r.to_string();
    push_str(&mut m, t.as_str());
    Some(m)
}

/// The name of the file an export writes in the export directory: the asset's hash,
/// a dot and the format.
pub fn export_file_name(source: &Asset, format: &str) -> (r: String)
    ensures
        r@ == source.hash@ + "."@ + format@,
{
    let mut r = source.hash.clone();
    push_str(&mut r, ".");
    push_str(&mut r, format);
    r
}

/// Whether an asset of this kind can be exported: videos and images only.
pub fn export_check(kind: AssetKind) -> (r: Result<(), AetherError>)
    ensures
        (kind == AssetKind::Video || kind == AssetKind::Image) ==> r is Ok,
        !(kind == AssetKind::Video || kind == AssetKind::Image) ==> (r matches Err(x) && x@ == ErrorV::InvalidCommand(
            "Export only supported for Video and Image assets"@,
        )),
{
    match kind {
        AssetKind::Video | AssetKind::Image => Ok(()),
        _ => Err(AetherError::InvalidCommand(owned("Export only supported for Video and Image assets"))),
    }
}

// ---------------------------------------------------------------------------
// Concatenation
// ---------------------------------------------------------------------------

/// The transition a concatenation puts on its clips: `Crossfade`, or a dissolve for
/// `FadeToBlack` and `Dissolve`; none for any other name.
pub open spec fn concat_transition(t: Option<Seq<char>>) -> Option<TransitionKind> {
    match t {
        Some(s) => if s == "Crossfade"@ {
            Some(TransitionKind::Crossfade)
        } else if s == "FadeToBlack"@ || s == "Dissolve"@ {
            Some(TransitionKind::Dissolve)
        } else {
            None
        },
        None => None,
    }
}

/// How long a clip of asset `a` lasts: for video and audio, the duration its media
/// metadata gives (`media_ms`), for stills the requested duration (`still_ms`); 5000
/// ms when the one that applies is missing.
pub open spec fn clip_duration(a: Asset, media_ms: Option<u64>, still_ms: Option<u32>) -> u64 {
    match a.kind {
        AssetKind::Video | AssetKind::Audio => match media_ms {
            Some(d) => d,
            None => 5000,
        },
        _ => match still_ms {
            Some(d) => d as u64,
            None => 5000,
        },
    }
}

/// The durations of the clips of a concatenation.
pub open spec fn concat_durations(m: Map<Ref, Asset>, refs: Seq<Ref>, media_ms: Seq<Option<u64>>, still_ms: Option<u32>) -> Seq<u64> {
    Seq::new(refs.len(), |i: int| clip_duration(m[refs[i]], media_ms[i], still_ms))
}

/// The sum of a sequence of durations.
pub open spec fn total(d: Seq<u64>) -> int
    decreases d.len(),
{
    if d.len() == 0 {
        0
    } else {
        total(d.drop_last()) + d.last()
    }
}

/// The clips of a concatenation: each asset whole, one after the other from time 0.
pub open spec fn concat_clips(d: Seq<u64>, refs: Seq<Ref>, t: Option<TransitionKind>) -> Seq<Clip> {
    Seq::new(
        refs.len(),
        |i: int| Clip { asset_ref: refs[i], in_point_ms: 0, out_point_ms: d[i], track_offset_ms: total(d.take(i)) as u64, transition: t },
    )
}

/// The kind of a concatenated track: audio when its last asset is audio, video
/// otherwise.
pub open spec fn concat_kind(m: Map<Ref, Asset>, refs: Seq<Ref>) -> TrackKind {
    if refs.len() > 0 && m[refs.last()].kind == AssetKind::Audio {
        TrackKind::Audio
    } else {
        TrackKind::Video
    }
}

/// The track a concatenation adds to a timeline of `count` tracks, or the refusal
/// of the first reference that is not registered.
pub open spec fn concat_spec(
    count: nat,
    m: Map<Ref, Asset>,
    refs: Seq<Ref>,
    transition: Option<Seq<char>>,
    still_ms: Option<u32>,
    media_ms: Seq<Option<u64>>,
) -> Result<TrackV, ErrorV> {
    match first_missing(m, refs) {
        Some(i) => Err(ErrorV::RefNotFound(refs[i])),
        None => Ok(
            TrackV {
                name: "Concat Track "@ + decimal(count + 1),
                kind: concat_kind(m, refs),
                clips: concat_clips(concat_durations(m, refs, media_ms, still_ms), refs, concat_transition(transition)),
            },
        ),
    }
}

/// A concatenation places its assets end to end: the clips follow the references
/// in order, each whole (from 0 to its duration), the first at 0 and each next one
/// where the one before ends.
pub proof fn law_concat_end_to_end(
    count: nat,
    m: Map<Ref, Asset>,
    refs: Seq<Ref>,
    transition: Option<Seq<char>>,
    still_ms: Option<u32>,
    media_ms: Seq<Option<u64>>,
)
    requires
        concat_fits(m, refs, media_ms, still_ms),
    ensures
        concat_spec(count, m, refs, transition, still_ms, media_ms) matches Ok(t) ==> {
            &&& t.clips.len() == refs.len()
            &&& forall|i: int| 0 <= i < refs.len() ==> {
                &&& (#[trigger] t.clips[i]).asset_ref == refs[i]
                &&& t.clips[i].in_point_ms == 0
                &&& t.clips[i].out_point_ms == clip_duration(m[refs[i]], media_ms[i], still_ms)
            }
            &&& refs.len() > 0 ==> t.clips[0].track_offset_ms == 0
            &&& forall|i: int| 0 <= i < refs.len() - 1 ==> (#[trigger] t.clips[i + 1]).track_offset_ms
                == t.clips[i].track_offset_ms + t.clips[i].out_point_ms - t.clips[i].in_point_ms
        },
{
    if first_missing(m, refs) is None {
        crate::text::lemma_first_index_props(refs, |r: Ref| !m.contains_key(r));
        let d = concat_durations(m, refs, media_ms, still_ms);
        assert forall|j: int| 0 <= j < refs.len() implies m.contains_key(#[trigger] refs[j]) by {
            assert(!(|r: Ref| !m.contains_key(r))(refs[j]));
        }
        assert forall|i: int| 0 <= i <= refs.len() implies 0 <= total(#[trigger] d.take(i)) <= u64::MAX by {
            lemma_total_nonneg(d.take(i));
            assert(forall|j: int| 0 <= j < i ==> m.contains_key(#[trigger] refs[j]));
        }
        assert(d.take(0) =~= Seq::<u64>::empty());
        assert forall|i: int| 0 <= i < refs.len() - 1 implies total(#[trigger] d.take(i + 1)) == total(d.take(i)) + d[i] by {
            assert(d.take(i + 1).drop_last() =~= d.take(i));
        }
    }
}

/// A sum of durations is not negative.
proof fn lemma_total_nonneg(d: Seq<u64>)
    ensures
        total(d) >= 0,
    decreases d.len(),
{
    if d.len() > 0 {
        lemma_total_nonneg(d.drop_last());
    }
}

/// Every run of registered references at the start of `refs` lasts at most
/// `u64::MAX` milliseconds.
pub open spec fn concat_fits(m: Map<Ref, Asset>, refs: Seq<Ref>, media_ms: Seq<Option<u64>>, still_ms: Option<u32>) -> bool {
    forall|k: int|
        0 <= k <= refs.len() && (forall|j: int| 0 <= j < k ==> m.contains_key(#[trigger] refs[j])) ==> total(
            #[trigger] concat_durations(m, refs, media_ms, still_ms).take(k),
        ) <= u64::MAX
}

fn concat_transition_of(t: &Option<String>) -> (r: Option<TransitionKind>)
    ensures
        r == concat_transition(opt_view(*t)),
{
    match t {
        Some(s) => {
            let x = s.as_str();
            if str_eq(x, "Crossfade") {
                Some(TransitionKind::Crossfade)
            } else if str_eq(x, "FadeToBlack") || str_eq(x, "Dissolve") {
                Some(TransitionKind::Dissolve)
            } else {
                None
            }
        },
        None => None,
    }
}

/// Lays the assets of `refs` one after the other on a new track at the end of the
/// timeline. `media_ms[i]` is the duration, in milliseconds, that the media
/// metadata of the asset of `refs[i]` gives, if it gives one.
pub fn concat_track(
    timeline: &mut Timeline,
    registry: &RefRegistry,
    refs: &Vec<Ref>,
    transition: &Option<String>,
    duration_ms: Option<u32>,
    media_ms: &Vec<Option<u64>>,
) -> (r: Result<(), AetherError>)
    requires
        registry.wf(),
        media_ms.len() == refs.len(),
        concat_fits(registry@, refs@, media_ms@, duration_ms),
        old(timeline).tracks.len() < usize::MAX,
    ensures
        match concat_spec(old(timeline)@.len(), registry@, refs@, opt_view(*transition), duration_ms, media_ms@) {
            Ok(t) => r is Ok && final(timeline)@ == old(timeline)@.push(t),
            Err(e) => r matches Err(x) && x@ == e && final(timeline)@ == old(timeline)@,
        },
{
    let ghost m = registry@;
    let ghost d = concat_durations(m, refs@, media_ms@, duration_ms);
    let tk = concat_transition_of(transition);
    let mut clips: Vec<Clip> = Vec::new();
    let mut offset: u64 = 0;
    let mut kind = TrackKind::Video;
    let mut i: usize = 0;
    while i < refs.len()
        invariant
            registry.wf(),
            m == registry@,
            media_ms.len() == refs.len(),
            d == concat_durations(m, refs@, media_ms@, duration_ms),
            concat_fits(m, refs@, media_ms@, duration_ms),
            tk == concat_transition(opt_view(*transition)),
            i <= refs.len(),
            forall|j: int| 0 <= j < i ==> m.contains_key(#[trigger] refs@[j]),
            offset == total(d.take(i as int)),
            clips@ == concat_clips(d, refs@, tk).take(i as int),
            kind == concat_kind(m, refs@.take(i as int)),
        decreases refs.len() - i,
    {
        let r = refs[i];
        let asset = match registry.resolve(&r) {
            Ok(a) => a,
            Err(e) => {
                proof {
                    crate::text::lemma_first_index(refs@, |r: Ref| !m.contains_key(r), i as int);
                }
                return Err(e);
            },
        };
        let dur: u64 = match asset.kind {
            AssetKind::Video => {
                kind = TrackKind::Video;
                match media_ms[i] {
                    Some(x) => x,
                    None => 5000,
                }
            },
            AssetKind::Audio => {
                kind = TrackKind::Audio;
                match media_ms[i] {
                    Some(x) => x,
                    None => 5000,
                }
            },
            _ => {
                kind = TrackKind::Video;
                match duration_ms {
                    Some(x) => x as u64,
                    None => 5000,
                }
            },
        };
        proof {
            assert(d[i as int] == dur);
            assert(d.take(i + 1).drop_last() =~= d.take(i as int));
            assert(total(d.take(i + 1)) <= u64::MAX);
            assert(refs@.take(i + 1).last() == r);
        }
        clips.push(Clip { asset_ref: r, in_point_ms: 0, out_point_ms: dur, track_offset_ms: offset, transition: tk });
        offset = offset + dur;
        i = i + 1;
        assert(clips@ =~= concat_clips(d, refs@, tk).take(i as int));
    }
    proof {
        crate::text::lemma_first_index_none(refs@, |r: Ref| !m.contains_key(r));
        assert(refs@.take(i as int) =~= refs@);
        assert(concat_clips(d, refs@, tk).take(i as int) =~= concat_clips(d, refs@, tk));
    }
    let mut name = owned("Concat Track ");
    let n = u64_decimal((timeline.tracks.len() + 1) as u64);
    push_str(&mut name, n.as_str());
    let ghost before = timeline@;
    timeline.tracks.push(Track { name, kind, clips });
    assert(timeline@ =~= before.push(timeline.tracks@.last()@));
    Ok(())
}


// ---------------------------------------------------------------------------
// Overlay graphs
// ---------------------------------------------------------------------------

/// The bit pattern of the single-precision value 1.0.
pub const OPACITY_ONE_BITS: u32 = 0x3f80_0000;

/// The blend mode named `b`: `Multiply`, `Screen`, `Overlay`, `SoftLight`; normal
/// for any other name or none.
pub open spec fn blend_mode_of(b: Option<Seq<char>>) -> BlendMode {
    match b {
        Some(s) => if s == "Multiply"@ {
            BlendMode::Multiply
        } else if s == "Screen"@ {
            BlendMode::Screen
        } else if s == "Overlay"@ {
            BlendMode::Overlay
        } else if s == "SoftLight"@ {
            BlendMode::SoftLight
        } else {
            BlendMode::Normal
        },
        None => BlendMode::Normal,
    }
}

/// `b` is one more than the greatest id of `ids`, or 1 when `ids` is empty.
pub open spec fn after_last_id(ids: Set<NodeId>, b: int) -> bool {
    &&& forall|x: NodeId| ids.contains(x) ==> x < b
    &&& (b == 1 || ids.contains((b - 1) as NodeId))
    &&& (ids.contains((b - 1) as NodeId) || ids == Set::<NodeId>::empty())
}

/// The nodes an overlay adds from id `b` on: the two sources, the blend and the output.
pub open spec fn overlay_nodes(g: Map<NodeId, Node>, b: NodeId, base: Ref, overlay: Ref, mode: BlendMode, opacity_bits: u32) -> Map<NodeId, Node> {
    g.insert(b, Node { id: b, kind: NodeKind::Source(base) })
        .insert((b + 1) as NodeId, Node { id: (b + 1) as NodeId, kind: NodeKind::Source(overlay) })
        .insert((b + 2) as NodeId, Node { id: (b + 2) as NodeId, kind: NodeKind::Blend { mode, opacity_bits } })
        .insert((b + 3) as NodeId, Node { id: (b + 3) as NodeId, kind: NodeKind::Output })
}

/// The connections an overlay adds: base into port 0 of the blend, overlay into port
/// 1, the blend into the output.
pub open spec fn overlay_edges(b: NodeId) -> Seq<Connection> {
    seq![
        Connection { from_node: b, from_port: 0, to_node: (b + 2) as NodeId, to_port: 0 },
        Connection { from_node: (b + 1) as NodeId, from_port: 0, to_node: (b + 2) as NodeId, to_port: 1 },
        Connection { from_node: (b + 2) as NodeId, from_port: 0, to_node: (b + 3) as NodeId, to_port: 0 },
    ]
}

/// A node with no outgoing connection reaches no other node.
proof fn lemma_no_way_out(conns: Seq<Connection>, a: NodeId, b: NodeId)
    requires
        a != b,
        forall|k: int| 0 <= k < conns.len() ==> (#[trigger] conns[k]).from_node != a,
    ensures
        !reachable(conns, a, b),
{
    if reachable(conns, a, b) {
        let p = choose|p: Seq<NodeId>| is_path(conns, p) && p[0] == a && p.last() == b;
        assert(p.len() >= 2);
        let z: int = 0;
        assert(0 <= z < p.len() - 1);
        assert(edge(conns, p[z], p[z + 1]));
        let k = choose|k: int| 0 <= k < conns.len() && conns[k].from_node == p[0] && conns[k].to_node == p[1];
        assert(conns[k].from_node == a);
    }
}

fn blend_mode_from(b: &Option<String>) -> (m: BlendMode)
    ensures
        m == blend_mode_of(opt_view(*b)),
{
    match b {
        Some(s) => {
            let x = s.as_str();
            if str_eq(x, "Multiply") {
                BlendMode::Multiply
            } else if str_eq(x, "Screen") {
                BlendMode::Screen
            } else if str_eq(x, "Overlay") {
                BlendMode::Overlay
            } else if str_eq(x, "SoftLight") {
                BlendMode::SoftLight
            } else {
                BlendMode::Normal
            }
        },
        None => BlendMode::Normal,
    }
}

/// Builds the graph of an overlay: after resolving both assets, adds source nodes
/// for `base` and `overlay` (ids following the greatest id of the graph), a blend
/// node with the named mode and the opacity (1.0 when none is given), and an output
/// node, connects them and marks the output; returns the output's id.
pub fn overlay_graph(
    graph: &mut CompositionGraph,
    registry: &RefRegistry,
    base: Ref,
    overlay: Ref,
    blend: &Option<String>,
    opacity_bits: Option<u32>,
) -> (r: Result<NodeId, AetherError>)
    requires
        old(graph).wf(),
        registry.wf(),
        forall|id: NodeId| old(graph)@.contains_key(id) ==> id <= u64::MAX - 4,
    ensures
        final(graph).wf(),
        !registry@.contains_key(base) ==> r == Err::<NodeId, AetherError>(AetherError::RefNotFound(base)),
        registry@.contains_key(base) && !registry@.contains_key(overlay) ==> r == Err::<NodeId, AetherError>(
            AetherError::RefNotFound(overlay),
        ),
        r is Err ==> final(graph)@ == old(graph)@ && final(graph).edges() == old(graph).edges() && final(graph).output()
            == old(graph).output(),
        registry@.contains_key(base) && registry@.contains_key(overlay) ==> (r matches Ok(out) && {
            let b = (out - 3) as NodeId;
            &&& after_last_id(old(graph)@.dom(), b as int)
            &&& final(graph)@ == overlay_nodes(
                old(graph)@,
                b,
                base,
                overlay,
                blend_mode_of(opt_view(*blend)),
                match opacity_bits {
                    Some(o) => o,
                    None => OPACITY_ONE_BITS,
                },
            )
            &&& final(graph).edges() == old(graph).edges() + overlay_edges(b)
            &&& final(graph).output() == Some(out)
        }),
{
    match registry.resolve(&base) {
        Ok(_) => {},
        Err(e) => return Err(e),
    }
    match registry.resolve(&overlay) {
        Ok(_) => {},
        Err(e) => return Err(e),
    }
    let ids = graph.node_ids();
    let mut top: u64 = 0;
    let mut i: usize = 0;
    while i < ids.len()
        invariant
            i <= ids.len(),
            forall|j: int| 0 <= j < i ==> ids@[j] <= top,
            i == 0 ==> top == 0,
            i > 0 ==> exists|j: int| 0 <= j < i && ids@[j] == top,
        decreases ids.len() - i,
    {
        if ids[i] > top {
            top = ids[i];
        }
        i = i + 1;
    }
    let ghost dom = graph@.dom();
    proof {
        assert forall|x: NodeId| dom.contains(x) implies x <= top by {
            assert(ids@.to_set().contains(x));
            let j = choose|j: int| 0 <= j < ids@.len() && ids@[j] == x;
        }
        if ids.len() > 0 {
            let j = choose|j: int| 0 <= j < ids@.len() && ids@[j] == top;
            assert(ids@.contains(top));
            assert(dom.contains(top));
        } else {
            assert(dom =~= Set::<NodeId>::empty()) by {
                assert forall|x: NodeId| !dom.contains(x) by {
                    if dom.contains(x) {
                        assert(ids@.to_set().contains(x));
                        assert(ids@.contains(x));
                    }
                }
            }
        }
        assert(top <= u64::MAX - 4);
    }
    let b = top + 1;
    let mode = blend_mode_from(blend);
    let op = match opacity_bits {
        Some(o) => o,
        None => OPACITY_ONE_BITS,
    };
    let ghost g0 = graph@;
    let ghost e0 = graph.edges();
    let ghost out0 = graph.output();
    proof {
        graph.lemma_edges_join_nodes();
    }
    graph.add_node(Node { id: b, kind: NodeKind::Source(base) });
    graph.add_node(Node { id: b + 1, kind: NodeKind::Source(overlay) });
    graph.add_node(Node { id: b + 2, kind: NodeKind::Blend { mode, opacity_bits: op } });
    graph.add_node(Node { id: b + 3, kind: NodeKind::Output });
    let c1 = Connection { from_node: b, from_port: 0, to_node: b + 2, to_port: 0 };
    let c2 = Connection { from_node: b + 1, from_port: 0, to_node: b + 2, to_port: 1 };
    let c3 = Connection { from_node: b + 2, from_port: 0, to_node: b + 3, to_port: 0 };
    proof {
        assert forall|k: int| 0 <= k < e0.len() implies (#[trigger] e0[k]).from_node != b + 2 && e0[k].from_node != b + 3 by {
            assert(g0.contains_key(e0[k].from_node));
        }
        lemma_no_way_out(e0, (b + 2) as NodeId, b);
    }
    let r1 = graph.connect(c1);
    assert(r1 is Ok);
    proof {
        let e1 = e0.push(c1);
        assert forall|k: int| 0 <= k < e1.len() implies (#[trigger] e1[k]).from_node != b + 2 && e1[k].from_node != b + 3 by {
            if k < e0.len() {
                assert(e1[k] == e0[k]);
            }
        }
        lemma_no_way_out(e1, (b + 2) as NodeId, (b + 1) as NodeId);
    }
    let r2 = graph.connect(c2);
    assert(r2 is Ok);
    proof {
        let e2 = e0.push(c1).push(c2);
        assert forall|k: int| 0 <= k < e2.len() implies (#[trigger] e2[k]).from_node != b + 3 by {
            if k < e0.len() {
                assert(e2[k] == e0[k]);
            }
        }
        lemma_no_way_out(e2, (b + 3) as NodeId, (b + 2) as NodeId);
    }
    let r3 = graph.connect(c3);
    assert(r3 is Ok);
    let out = b + 3;
    graph.set_output_node(Some(out));
    assert(graph.edges() =~= e0 + overlay_edges(b));
    Ok(out)
}

} // verus!
