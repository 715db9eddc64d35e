//! The command language: splitting a line into tokens (double quotes group words) and
//! reading the tokens as a command.

use vstd::prelude::*;
use crate::refs::{Ref, ref_parse};
use crate::text::{
    ascii_lower, chars_eq, chars_of, i32_literal, is_float_literal, is_float_text, is_white_space,
    char_is_whitespace, lower_chars, owned, parse_i32, parse_u32, push_str, string_of,
    to_lowercase, u32_literal, unicode_lowercase,
};

verus! {

// ---------------------------------------------------------------------------
// Tokenizer
// ---------------------------------------------------------------------------

/// The tokenizer's state after reading `cs`: finished tokens, the token being read,
/// and whether a double quote is open.
pub open spec fn tok_fold(cs: Seq<char>) -> (Seq<Seq<char>>, Seq<char>, bool)
    decreases cs.len(),
{
    if cs.len() == 0 {
        (Seq::empty(), Seq::empty(), false)
    } else {
        let (toks, cur, quoted) = tok_fold(cs.drop_last());
        let c = cs.last();
        if c == '"' {
            (toks, cur, !quoted)
        } else if is_white_space(c) && !quoted {
            if cur.len() > 0 {
                (toks.push(cur), Seq::empty(), quoted)
            } else {
                (toks, cur, quoted)
            }
        } else {
            (toks, cur.push(c), quoted)
        }
    }
}

pub open spec fn msg_unclosed_quote() -> Seq<char> {
    "Unclosed double quote"@
}

/// The tokens of a line: words split at white space, where a double-quoted stretch
/// keeps its white space and the quotes themselves are dropped; an error when a quote
/// is left open.
pub open spec fn tokenize_spec(cs: Seq<char>) -> Result<Seq<Seq<char>>, Seq<char>> {
    let (toks, cur, quoted) = tok_fold(cs);
    if quoted {
        Err(msg_unclosed_quote())
    } else if cur.len() > 0 {
        Ok(toks.push(cur))
    } else {
        Ok(toks)
    }
}

/// The number of double quotes in `cs`.
pub open spec fn quote_count(cs: Seq<char>) -> nat
    decreases cs.len(),
{
    if cs.len() == 0 {
        0
    } else {
        quote_count(cs.drop_last()) + if cs.last() == '"' { 1nat } else { 0nat }
    }
}

/// The characters of `cs` that tokens keep: all but the double quotes and the
/// white space outside quotes.
pub open spec fn kept_chars(cs: Seq<char>) -> Seq<char>
    decreases cs.len(),
{
    if cs.len() == 0 {
        Seq::empty()
    } else {
        let prev = cs.drop_last();
        let c = cs.last();
        if c == '"' || (is_white_space(c) && quote_count(prev) % 2 == 0) {
            kept_chars(prev)
        } else {
            kept_chars(prev).push(c)
        }
    }
}

/// The words of `cs`: its maximal runs of characters other than white space, in order.
pub open spec fn words(cs: Seq<char>) -> Seq<Seq<char>>
    decreases cs.len(),
{
    if cs.len() == 0 {
        Seq::empty()
    } else {
        let prev = cs.drop_last();
        let w = words(prev);
        let c = cs.last();
        if is_white_space(c) {
            w
        } else if prev.len() > 0 && !is_white_space(prev.last()) {
            w.drop_last().push(w.last().push(c))
        } else {
            w.push(seq![c])
        }
    }
}

/// What the tokenizer's state holds after reading `cs`.
proof fn lemma_tok_fold(cs: Seq<char>)
    ensures
        tok_fold(cs).2 == (quote_count(cs) % 2 == 1),
        forall|i: int| 0 <= i < tok_fold(cs).0.len() ==> (#[trigger] tok_fold(cs).0[i]).len() > 0 && !tok_fold(cs).0[i].contains('"'),
        !tok_fold(cs).1.contains('"'),
        tok_fold(cs).0.flatten() + tok_fold(cs).1 == kept_chars(cs),
        !cs.contains('"') ==> !tok_fold(cs).2,
        !cs.contains('"') && tok_fold(cs).1.len() > 0 ==> words(cs) == tok_fold(cs).0.push(tok_fold(cs).1) && !is_white_space(cs.last()),
        !cs.contains('"') && tok_fold(cs).1.len() == 0 ==> words(cs) == tok_fold(cs).0 && (cs.len() == 0 || is_white_space(cs.last())),
    decreases cs.len(),
{
    if cs.len() == 0 {
        assert(Seq::<Seq<char>>::empty().flatten() =~= Seq::<char>::empty());
        assert(Seq::<char>::empty() + Seq::<char>::empty() =~= Seq::<char>::empty());
    } else {
        let prev = cs.drop_last();
        lemma_tok_fold(prev);
        let toks = tok_fold(prev).0;
        let cur = tok_fold(prev).1;
        let quoted = tok_fold(prev).2;
        let c = cs.last();
        if !cs.contains('"') {
            assert(!prev.contains('"')) by {
                if prev.contains('"') {
                    let i = choose|i: int| 0 <= i < prev.len() && prev[i] == '"';
                    assert(cs[i] == prev[i]);
                }
            }
            assert(c != '"') by {
                assert(cs[cs.len() - 1] == c);
            }
        }
        if c == '"' {
            assert(tok_fold(cs) == (toks, cur, !quoted));
        } else if is_white_space(c) && !quoted {
            if cur.len() > 0 {
                toks.lemma_flatten_push(cur);
                let nt = toks.push(cur);
                assert(tok_fold(cs) == (nt, Seq::<char>::empty(), quoted));
                assert(nt.flatten() + Seq::<char>::empty() =~= toks.flatten() + cur);
                assert forall|i: int| 0 <= i < nt.len() implies (#[trigger] nt[i]).len() > 0 && !nt[i].contains('"') by {
                    if i < toks.len() {
                        assert(nt[i] == toks[i]);
                    }
                }
            } else {
                assert(tok_fold(cs) == (toks, cur, quoted));
                assert(toks.flatten() + cur =~= toks.flatten() + Seq::<char>::empty());
            }
        } else {
            let nc = cur.push(c);
            assert(tok_fold(cs) == (toks, nc, quoted));
            assert(toks.flatten() + nc =~= (toks.flatten() + cur).push(c));
            assert(!nc.contains('"')) by {
                if nc.contains('"') {
                    let i = choose|i: int| 0 <= i < nc.len() && nc[i] == '"';
                    if i < cur.len() {
                        assert(nc[i] == cur[i]);
                    }
                }
            }
            if !cs.contains('"') {
                if cur.len() > 0 {
                    assert(words(cs) == words(prev).drop_last().push(words(prev).last().push(c)));
                    assert(words(prev).drop_last() =~= toks);
                } else {
                    assert(words(cs) == words(prev).push(seq![c]));
                    assert(nc =~= seq![c]);
                }
            }
        }
    }
}

/// A line is refused exactly when it holds an odd number of double quotes, and
/// then with the unclosed-quote message.
pub proof fn law_tokenize_unclosed_quote(cs: Seq<char>)
    ensures
        tokenize_spec(cs) is Err <==> quote_count(cs) % 2 == 1,
        tokenize_spec(cs) matches Err(m) ==> m == msg_unclosed_quote(),
{
    lemma_tok_fold(cs);
}

/// The tokens of an accepted line are nonempty and hold no double quote, and
/// together they are the line without its quotes and without the white space
/// outside quotes.
pub proof fn law_tokens_shape(cs: Seq<char>)
    ensures
        tokenize_spec(cs) matches Ok(ts) ==> {
            &&& forall|i: int| 0 <= i < ts.len() ==> (#[trigger] ts[i]).len() > 0 && !ts[i].contains('"')
            &&& ts.flatten() == kept_chars(cs)
        },
{
    lemma_tok_fold(cs);
    let toks = tok_fold(cs).0;
    let cur = tok_fold(cs).1;
    if !tok_fold(cs).2 && cur.len() > 0 {
        toks.lemma_flatten_push(cur);
        let ts = toks.push(cur);
        assert forall|i: int| 0 <= i < ts.len() implies (#[trigger] ts[i]).len() > 0 && !ts[i].contains('"') by {
            if i < toks.len() {
                assert(ts[i] == toks[i]);
            }
        }
    } else if !tok_fold(cs).2 {
        assert(toks.flatten() + cur =~= toks.flatten());
    }
}

/// Without double quotes, a line's tokens are its words: the maximal runs of
/// characters other than white space.
pub proof fn law_tokenize_without_quotes(cs: Seq<char>)
    requires
        !cs.contains('"'),
    ensures
        tokenize_spec(cs) == Ok::<Seq<Seq<char>>, Seq<char>>(words(cs)),
{
    lemma_tok_fold(cs);
}

/// The character sequences of a sequence of character vectors.
pub open spec fn views(v: Seq<Vec<char>>) -> Seq<Seq<char>> {
    v.map_values(|x: Vec<char>| x@)
}

/// The character sequences of a sequence of strings.
pub open spec fn string_views(v: Seq<String>) -> Seq<Seq<char>> {
    v.map_values(|x: String| x@)
}

fn tokenize_chars(line: &str) -> (r: Result<Vec<Vec<char>>, String>)
    ensures
        match r {
            Ok(v) => tokenize_spec(line@) == Ok::<Seq<Seq<char>>, Seq<char>>(views(v@)),
            Err(m) => tokenize_spec(line@) == Err::<Seq<Seq<char>>, Seq<char>>(m@),
        },
{
    let cs = chars_of(line);
    let mut tokens: Vec<Vec<char>> = Vec::new();
    let mut current: Vec<char> = Vec::new();
    let mut in_quotes = false;
    let mut i: usize = 0;
    assert(cs@.subrange(0, 0) =~= Seq::<char>::empty());
    while i < cs.len()
        invariant
            cs@ == line@,
            i <= cs.len(),
            tok_fold(cs@.subrange(0, i as int)) == (views(tokens@), current@, in_quotes),
        decreases cs.len() - i,
    {
        let c = cs[i];
        assert(cs@.subrange(0, i + 1).drop_last() =~= cs@.subrange(0, i as int));
        assert(cs@.subrange(0, i + 1).last() == c);
        if c == '"' {
            in_quotes = !in_quotes;
        } else if char_is_whitespace(c) && !in_quotes {
            if current.len() > 0 {
                let ghost old_tokens = tokens@;
                let done = current;
                current = Vec::new();
                tokens.push(done);
                assert(views(tokens@) =~= views(old_tokens).push(done@));
                assert(current@ =~= Seq::<char>::empty());
            }
        } else {
            current.push(c);
        }
        i = i + 1;
    }
    assert(cs@.subrange(0, i as int) =~= line@);
    if in_quotes {
        return Err(owned("Unclosed double quote"));
    }
    if current.len() > 0 {
        let ghost old_tokens = tokens@;
        let ghost cur = current@;
        tokens.push(current);
        assert(views(tokens@) =~= views(old_tokens).push(cur));
    }
    Ok(tokens)
}

/// Splits a command line into tokens; words are separated by white space, and a
/// double-quoted stretch is one token without its quotes.
pub fn tokenize(line: &str) -> (r: Result<Vec<String>, String>)
    ensures
        match r {
            Ok(v) => tokenize_spec(line@) == Ok::<Seq<Seq<char>>, Seq<char>>(string_views(v@)),
            Err(m) => tokenize_spec(line@) == Err::<Seq<Seq<char>>, Seq<char>>(m@),
        },
{
    match tokenize_chars(line) {
        Err(m) => Err(m),
        Ok(toks) => {
            let mut out: Vec<String> = Vec::new();
            let mut i: usize = 0;
            while i < toks.len()
                invariant
                    i <= toks.len(),
                    string_views(out@) == views(toks@).subrange(0, i as int),
                decreases toks.len() - i,
            {
                let s = string_of(&toks[i]);
                let ghost before = out@;
                out.push(s);
                assert(string_views(out@) =~= string_views(before).push(s@));
                i = i + 1;
                assert(views(toks@).subrange(0, i as int) =~= views(toks@).subrange(0, i - 1).push(toks@[i - 1]@));
            }
            assert(views(toks@).subrange(0, i as int) =~= views(toks@));
            Ok(out)
        },
    }
}

// ---------------------------------------------------------------------------
// Commands
// ---------------------------------------------------------------------------

/// A command of the engine. Floating-point arguments (`fps`, `volume`, `size`, the
/// timeline, audio and keyframe values) are carried as their text; the parser lets
/// through only texts that are valid `f32` literals. The options of a generation
/// command are its JSON options document as text; the parser gives `{}`.
#[derive(Debug, Clone, PartialEq)]
pub enum Command {
    Init { fps: Option<String>, resolution: Option<String>, colorspace: Option<String> },
    Import { path: String },
    Trim { r: Ref, start: String, end: String },
    Mix { r: Ref, volume: String },
    Composite { base: Ref, overlay: Ref, at: String, x: i32, y: i32 },
    Canvas { width: u32, height: u32, color: String },
    DrawText { r: Ref, text: String, font: String, size: String, x: i32, y: i32 },
    Export { r: Ref, format: String, codec: String, quality: String },
    Inspect { r: Option<Ref>, start: Option<String>, end: Option<String> },
    GenerateStoryboardScratch { request: String, model: Option<String>, options: String },
    GenerateDialogue { request: String, model: Option<String>, options: String },
    GenerateImage { request: String, model: Option<String>, inputs: Vec<Ref>, options: String },
    EditImage { target: Ref, request: String, model: Option<String>, options: String },
    GenerateVoice { text: String, voice: Option<String>, model: Option<String>, options: String },
    CloneVoice { sample: Ref, name: Option<String>, model: Option<String>, options: String },
    GenerateSceneAudio { request: String, model: Option<String>, options: String },
    GenerateMusic { request: String, model: Option<String>, options: String },
    GenerateVideoFromText { request: String, model: Option<String>, options: String },
    GenerateVideoFromFrame { frame: Ref, request: String, model: Option<String>, options: String },
    GenerateVideoFromIngredients { inputs: Vec<Ref>, request: String, model: Option<String>, options: String },
    EditVideo { target: Ref, request: String, model: Option<String>, options: String },
    GenerationStatus { r: Option<Ref> },
    CancelGeneration { r: Ref },
    Undo,
    Redo,
    Snapshot,
    Concat { refs: Vec<Ref>, transition: Option<String>, duration_ms: Option<u32> },
    Overlay { base: Ref, overlay: Ref, x: i32, y: i32, blend: Option<String>, opacity: Option<String> },
    Speed { r: Ref, factor: String },
    Eq { r: Ref, filter_type: String, freq_hz: String, gain_db: String, q: String },
    Compress { r: Ref, threshold_db: String, ratio: String, attack_ms: String, release_ms: String },
    MixTracks { refs: Vec<Ref>, volumes: Vec<String>, pans: Vec<String> },
    KeyframeSet { r: Ref, property: String, time_ms: u64, value: String, easing: Option<String> },
    KeyframeList { r: Ref, property: String },
    ExportOtio { output_path: String },
    ExportEdl { output_path: String },
    Branch { name: String },
    Checkout { name: String },
    ProjectCreate { name: String, dir: Option<String>, adopt: bool, force: bool },
    ProjectOpen { target: String },
    ProjectCurrent,
    ProjectClose { target: Option<String> },
    ProjectList,
    ProjectDelete { target: String, force: bool, archive: bool },
    Shutdown,
}

/// The mathematical content of a command: its strings as character sequences.
pub enum CommandV {
    Init { fps: Option<Seq<char>>, resolution: Option<Seq<char>>, colorspace: Option<Seq<char>> },
    Import { path: Seq<char> },
    Trim { r: Ref, start: Seq<char>, end: Seq<char> },
    Mix { r: Ref, volume: Seq<char> },
    Composite { base: Ref, overlay: Ref, at: Seq<char>, x: i32, y: i32 },
    Canvas { width: u32, height: u32, color: Seq<char> },
    DrawText { r: Ref, text: Seq<char>, font: Seq<char>, size: Seq<char>, x: i32, y: i32 },
    Export { r: Ref, format: Seq<char>, codec: Seq<char>, quality: Seq<char> },
    Inspect { r: Option<Ref>, start: Option<Seq<char>>, end: Option<Seq<char>> },
    GenerateStoryboardScratch { request: Seq<char>, model: Option<Seq<char>>, options: Seq<char> },
    GenerateDialogue { request: Seq<char>, model: Option<Seq<char>>, options: Seq<char> },
    GenerateImage { request: Seq<char>, model: Option<Seq<char>>, inputs: Seq<Ref>, options: Seq<char> },
    EditImage { target: Ref, request: Seq<char>, model: Option<Seq<char>>, options: Seq<char> },
    GenerateVoice { text: Seq<char>, voice: Option<Seq<char>>, model: Option<Seq<char>>, options: Seq<char> },
    CloneVoice { sample: Ref, name: Option<Seq<char>>, model: Option<Seq<char>>, options: Seq<char> },
    GenerateSceneAudio { request: Seq<char>, model: Option<Seq<char>>, options: Seq<char> },
    GenerateMusic { request: Seq<char>, model: Option<Seq<char>>, options: Seq<char> },
    GenerateVideoFromText { request: Seq<char>, model: Option<Seq<char>>, options: Seq<char> },
    GenerateVideoFromFrame { frame: Ref, request: Seq<char>, model: Option<Seq<char>>, options: Seq<char> },
    GenerateVideoFromIngredients { inputs: Seq<Ref>, request: Seq<char>, model: Option<Seq<char>>, options: Seq<char> },
    EditVideo { target: Ref, request: Seq<char>, model: Option<Seq<char>>, options: Seq<char> },
    GenerationStatus { r: Option<Ref> },
    CancelGeneration { r: Ref },
    Undo,
    Redo,
    Snapshot,
    Concat { refs: Seq<Ref>, transition: Option<Seq<char>>, duration_ms: Option<u32> },
    Overlay { base: Ref, overlay: Ref, x: i32, y: i32, blend: Option<Seq<char>>, opacity: Option<Seq<char>> },
    Speed { r: Ref, factor: Seq<char> },
    Eq { r: Ref, filter_type: Seq<char>, freq_hz: Seq<char>, gain_db: Seq<char>, q: Seq<char> },
    Compress { r: Ref, threshold_db: Seq<char>, ratio: Seq<char>, attack_ms: Seq<char>, release_ms: Seq<char> },
    MixTracks { refs: Seq<Ref>, volumes: Seq<Seq<char>>, pans: Seq<Seq<char>> },
    KeyframeSet { r: Ref, property: Seq<char>, time_ms: u64, value: Seq<char>, easing: Option<Seq<char>> },
    KeyframeList { r: Ref, property: Seq<char> },
    ExportOtio { output_path: Seq<char> },
    ExportEdl { output_path: Seq<char> },
    Branch { name: Seq<char> },
    Checkout { name: Seq<char> },
    ProjectCreate { name: Seq<char>, dir: Option<Seq<char>>, adopt: bool, force: bool },
    ProjectOpen { target: Seq<char> },
    ProjectCurrent,
    ProjectClose { target: Option<Seq<char>> },
    ProjectList,
    ProjectDelete { target: Seq<char>, force: bool, archive: bool },
    Shutdown,
}

/// The characters of an optional string.
pub open spec fn opt_view(o: Option<String>) -> Option<Seq<char>> {
    match o {
        Some(s) => Some(s@),
        None => None,
    }
}

impl View for Command {
    type V = CommandV;

    open spec fn view(&self) -> CommandV {
        match *self {
            Command::Init { fps, resolution, colorspace } => CommandV::Init {
                fps: opt_view(fps),
                resolution: opt_view(resolution),
                colorspace: opt_view(colorspace),
            },
            Command::Import { path } => CommandV::Import { path: path@ },
            Command::Trim { r, start, end } => CommandV::Trim { r, start: start@, end: end@ },
            Command::Mix { r, volume } => CommandV::Mix { r, volume: volume@ },
            Command::Composite { base, overlay, at, x, y } => CommandV::Composite { base, overlay, at: at@, x, y },
            Command::Canvas { width, height, color } => CommandV::Canvas { width, height, color: color@ },
            Command::DrawText { r, text, font, size, x, y } => CommandV::DrawText {
                r,
                text: text@,
                font: font@,
                size: size@,
                x,
                y,
            },
            Command::Export { r, format, codec, quality } => CommandV::Export {
                r,
                format: format@,
                codec: codec@,
                quality: quality@,
            },
            Command::Inspect { r, start, end } => CommandV::Inspect { r, start: opt_view(start), end: opt_view(end) },
            Command::GenerateStoryboardScratch { request, model, options } => CommandV::GenerateStoryboardScratch {
                options: options@,
                request: request@,
                model: opt_view(model),
            },
            Command::GenerateDialogue { request, model, options } => CommandV::GenerateDialogue {
                options: options@,
                request: request@,
                model: opt_view(model),
            },
            Command::GenerateImage { request, model, inputs, options } => CommandV::GenerateImage {
                options: options@,
                request: request@,
                model: opt_view(model),
                inputs: inputs@,
            },
            Command::EditImage { target, request, model, options } => CommandV::EditImage {
                options: options@,
                target,
                request: request@,
                model: opt_view(model),
            },
            Command::GenerateVoice { text, voice, model, options } => CommandV::GenerateVoice {
                options: options@,
                text: text@,
                voice: opt_view(voice),
                model: opt_view(model),
            },
            Command::CloneVoice { sample, name, model, options } => CommandV::CloneVoice {
                options: options@,
                sample,
                name: opt_view(name),
                model: opt_view(model),
            },
            Command::GenerateSceneAudio { request, model, options } => CommandV::GenerateSceneAudio {
                options: options@,
                request: request@,
                model: opt_view(model),
            },
            Command::GenerateMusic { request, model, options } => CommandV::GenerateMusic {
                options: options@,
                request: request@,
                model: opt_view(model),
            },
            Command::GenerateVideoFromText { request, model, options } => CommandV::GenerateVideoFromText {
                options: options@,
                request: request@,
                model: opt_view(model),
            },
            Command::GenerateVideoFromFrame { frame, request, model, options } => CommandV::GenerateVideoFromFrame {
                options: options@,
                frame,
                request: request@,
                model: opt_view(model),
            },
            Command::GenerateVideoFromIngredients { inputs, request, model, options } => CommandV::GenerateVideoFromIngredients {
                options: options@,
                inputs: inputs@,
                request: request@,
                model: opt_view(model),
            },
            Command::EditVideo { target, request, model, options } => CommandV::EditVideo {
                options: options@,
                target,
                request: request@,
                model: opt_view(model),
            },
            Command::GenerationStatus { r } => CommandV::GenerationStatus { r },
            Command::CancelGeneration { r } => CommandV::CancelGeneration { r },
            Command::Undo => CommandV::Undo,
            Command::Redo => CommandV::Redo,
            Command::Snapshot => CommandV::Snapshot,
            Command::Concat { refs, transition, duration_ms } => CommandV::Concat {
                refs: refs@,
                transition: opt_view(transition),
                duration_ms,
            },
            Command::Overlay { base, overlay, x, y, blend, opacity } => CommandV::Overlay {
                base,
                overlay,
                x,
                y,
                blend: opt_view(blend),
                opacity: opt_view(opacity),
            },
            Command::Speed { r, factor } => CommandV::Speed { r, factor: factor@ },
            Command::Eq { r, filter_type, freq_hz, gain_db, q } => CommandV::Eq {
                r,
                filter_type: filter_type@,
                freq_hz: freq_hz@,
                gain_db: gain_db@,
                q: q@,
            },
            Command::Compress { r, threshold_db, ratio, attack_ms, release_ms } => CommandV::Compress {
                r,
                threshold_db: threshold_db@,
                ratio: ratio@,
                attack_ms: attack_ms@,
                release_ms: release_ms@,
            },
            Command::MixTracks { refs, volumes, pans } => CommandV::MixTracks {
                refs: refs@,
                volumes: string_views(volumes@),
                pans: string_views(pans@),
            },
            Command::KeyframeSet { r, property, time_ms, value, easing } => CommandV::KeyframeSet {
                r,
                property: property@,
                time_ms,
                value: value@,
                easing: opt_view(easing),
            },
            Command::KeyframeList { r, property } => CommandV::KeyframeList { r, property: property@ },
            Command::ExportOtio { output_path } => CommandV::ExportOtio { output_path: output_path@ },
            Command::ExportEdl { output_path } => CommandV::ExportEdl { output_path: output_path@ },
            Command::Branch { name } => CommandV::Branch { name: name@ },
            Command::Checkout { name } => CommandV::Checkout { name: name@ },
            Command::ProjectCreate { name, dir, adopt, force } => CommandV::ProjectCreate {
                name: name@,
                dir: opt_view(dir),
                adopt,
                force,
            },
            Command::ProjectOpen { target } => CommandV::ProjectOpen { target: target@ },
            Command::ProjectCurrent => CommandV::ProjectCurrent,
            Command::ProjectClose { target } => CommandV::ProjectClose { target: opt_view(target) },
            Command::ProjectList => CommandV::ProjectList,
            Command::ProjectDelete { target, force, archive } => CommandV::ProjectDelete {
                target: target@,
                force,
                archive,
            },
            Command::Shutdown => CommandV::Shutdown,
        }
    }
}

/// The command words of the language.
#[derive(Clone, Copy, PartialEq, Eq, Structural)]
pub enum Kw {
    Init,
    Import,
    Trim,
    Mix,
    Composite,
    Canvas,
    DrawText,
    Export,
    Inspect,
    Storyboard,
    Dialogue,
    Image,
    EditImage,
    Voice,
    CloneVoice,
    SceneAudio,
    Music,
    Video,
    VideoFrame,
    VideoIngredients,
    EditVideo,
    Status,
    Cancel,
    Undo,
    Redo,
    Snapshot,
    ProjectCreate,
    ProjectOpen,
    ProjectCurrent,
    ProjectClose,
    ProjectList,
    ProjectDelete,
    Shutdown,
}

/// The command that two leading words (already lowercased) name together.
pub open spec fn pair_kw(a: Seq<char>, b: Seq<char>) -> Option<Kw> {
    if a == "generate"@ {
        if b == "storyboard-scratch"@ || b == "storyboard_scratch"@ {
            Some(Kw::Storyboard)
        } else if b == "dialogue"@ {
            Some(Kw::Dialogue)
        } else if b == "image"@ {
            Some(Kw::Image)
        } else if b == "voice"@ {
            Some(Kw::Voice)
        } else if b == "scene-audio"@ || b == "scene_audio"@ {
            Some(Kw::SceneAudio)
        } else if b == "music"@ {
            Some(Kw::Music)
        } else if b == "video-text"@ || b == "video_text"@ || b == "video"@ {
            Some(Kw::Video)
        } else if b == "video-frame"@ || b == "video_frame"@ {
            Some(Kw::VideoFrame)
        } else if b == "video-ingredients"@ || b == "video_ingredients"@ {
            Some(Kw::VideoIngredients)
        } else {
            None
        }
    } else if a == "edit"@ {
        if b == "image"@ {
            Some(Kw::EditImage)
        } else if b == "video"@ {
            Some(Kw::EditVideo)
        } else {
            None
        }
    } else if a == "clone"@ {
        if b == "voice"@ {
            Some(Kw::CloneVoice)
        } else {
            None
        }
    } else if a == "generation"@ {
        if b == "status"@ {
            Some(Kw::Status)
        } else if b == "cancel"@ {
            Some(Kw::Cancel)
        } else {
            None
        }
    } else if a == "project"@ {
        if b == "create"@ {
            Some(Kw::ProjectCreate)
        } else if b == "open"@ {
            Some(Kw::ProjectOpen)
        } else if b == "current"@ {
            Some(Kw::ProjectCurrent)
        } else if b == "close"@ {
            Some(Kw::ProjectClose)
        } else if b == "list"@ {
            Some(Kw::ProjectList)
        } else if b == "delete"@ {
            Some(Kw::ProjectDelete)
        } else {
            None
        }
    } else {
        None
    }
}

/// The command that one leading word (already lowercased) names.
pub open spec fn single_kw(a: Seq<char>) -> Option<Kw> {
    if a == "init"@ {
        Some(Kw::Init)
    } else if a == "import"@ {
        Some(Kw::Import)
    } else if a == "trim"@ {
        Some(Kw::Trim)
    } else if a == "mix"@ {
        Some(Kw::Mix)
    } else if a == "composite"@ {
        Some(Kw::Composite)
    } else if a == "canvas"@ {
        Some(Kw::Canvas)
    } else if a == "draw_text"@ {
        Some(Kw::DrawText)
    } else if a == "export"@ {
        Some(Kw::Export)
    } else if a == "inspect"@ {
        Some(Kw::Inspect)
    } else if a == "generate_storyboard_scratch"@ || a == "storyboard_scratch"@ {
        Some(Kw::Storyboard)
    } else if a == "generate_dialogue"@ || a == "dialogue"@ {
        Some(Kw::Dialogue)
    } else if a == "generate_image"@ || a == "image"@ {
        Some(Kw::Image)
    } else if a == "edit_image"@ {
        Some(Kw::EditImage)
    } else if a == "generate_voice"@ || a == "voice"@ {
        Some(Kw::Voice)
    } else if a == "clone_voice"@ {
        Some(Kw::CloneVoice)
    } else if a == "generate_scene_audio"@ || a == "scene_audio"@ {
        Some(Kw::SceneAudio)
    } else if a == "generate_music"@ || a == "music"@ {
        Some(Kw::Music)
    } else if a == "generate_video"@ || a == "video"@ {
        Some(Kw::Video)
    } else if a == "generate_video_frame"@ || a == "video_frame"@ {
        Some(Kw::VideoFrame)
    } else if a == "generate_video_ingredients"@ {
        Some(Kw::VideoIngredients)
    } else if a == "edit_video"@ {
        Some(Kw::EditVideo)
    } else if a == "generation_status"@ || a == "status"@ {
        Some(Kw::Status)
    } else if a == "cancel_generation"@ || a == "cancel"@ {
        Some(Kw::Cancel)
    } else if a == "undo"@ {
        Some(Kw::Undo)
    } else if a == "redo"@ {
        Some(Kw::Redo)
    } else if a == "snapshot"@ {
        Some(Kw::Snapshot)
    } else if a == "project_create"@ {
        Some(Kw::ProjectCreate)
    } else if a == "project_open"@ {
        Some(Kw::ProjectOpen)
    } else if a == "project_current"@ {
        Some(Kw::ProjectCurrent)
    } else if a == "project_close"@ {
        Some(Kw::ProjectClose)
    } else if a == "project_list"@ {
        Some(Kw::ProjectList)
    } else if a == "project_delete"@ {
        Some(Kw::ProjectDelete)
    } else if a == "shutdown"@ {
        Some(Kw::Shutdown)
    } else {
        None
    }
}

/// The command named by the leading tokens, and how many tokens name it.
pub open spec fn classify(t: Seq<Seq<char>>) -> Option<(Kw, int)> {
    if t.len() >= 2 && pair_kw(ascii_lower(t[0]), ascii_lower(t[1])) is Some {
        Some((pair_kw(ascii_lower(t[0]), ascii_lower(t[1]))->0, 2))
    } else if t.len() >= 1 && single_kw(ascii_lower(t[0])) is Some {
        Some((single_kw(ascii_lower(t[0]))->0, 1))
    } else {
        None
    }
}

/// The token at `i`, if there is one.
pub open spec fn opt_tok(a: Seq<Seq<char>>, i: int) -> Option<Seq<char>> {
    if 0 <= i < a.len() {
        Some(a[i])
    } else {
        None
    }
}

/// The message that a failed reference parse shows: the `InvalidRef` error's text.
pub open spec fn ref_msg(s: Seq<char>, m: Seq<char>) -> Seq<char> {
    "Invalid Reference '"@ + s + "': "@ + m
}

/// A token read as a reference, or the message of its error.
pub open spec fn ref_arg(s: Seq<char>) -> Result<Ref, Seq<char>> {
    match ref_parse(s) {
        Ok(r) => Ok(r),
        Err(m) => Err(ref_msg(s, m)),
    }
}

/// The requested text and optional model of the simple generation commands.
pub open spec fn request_model(a: Seq<Seq<char>>, missing: Seq<char>) -> Result<(Seq<char>, Option<Seq<char>>), Seq<char>> {
    if a.len() < 1 {
        Err(missing)
    } else {
        Ok((a[0], opt_tok(a, 1)))
    }
}

/// A target reference, a request, and an optional model.
pub open spec fn target_request_model(a: Seq<Seq<char>>, missing_target: Seq<char>, missing_request: Seq<char>) -> Result<(Ref, Seq<char>, Option<Seq<char>>), Seq<char>> {
    if a.len() < 1 {
        Err(missing_target)
    } else {
        match ref_arg(a[0]) {
            Err(m) => Err(m),
            Ok(r) => if a.len() < 2 {
                Err(missing_request)
            } else {
                Ok((r, a[1], opt_tok(a, 2)))
            },
        }
    }
}

/// The first position of `--prompt` in `a`, or its length.
pub open spec fn prompt_index(a: Seq<Seq<char>>) -> int
    decreases a.len(),
{
    if a.len() == 0 {
        0
    } else if a[0] == "--prompt"@ {
        0
    } else {
        1 + prompt_index(a.drop_first())
    }
}

/// Every token of `a` read as a reference, or the message of the first that is not one.
pub open spec fn refs_arg(a: Seq<Seq<char>>) -> Result<Seq<Ref>, Seq<char>>
    decreases a.len(),
{
    if a.len() == 0 {
        Ok(Seq::empty())
    } else {
        match refs_arg(a.drop_last()) {
            Err(m) => Err(m),
            Ok(rs) => match ref_arg(a.last()) {
                Err(m) => Err(m),
                Ok(r) => Ok(rs.push(r)),
            },
        }
    }
}

/// The flags of `project create` from position `i` on: `--dir <path>`, `--adopt`, `--force`.
pub open spec fn create_flags(a: Seq<Seq<char>>, i: int, dir: Option<Seq<char>>, adopt: bool, force: bool) -> Result<(Option<Seq<char>>, bool, bool), Seq<char>>
    decreases a.len() - i,
{
    if i < 0 || i >= a.len() {
        Ok((dir, adopt, force))
    } else if a[i] == "--dir"@ {
        if i + 1 >= a.len() {
            Err("Missing value for --dir"@)
        } else {
            create_flags(a, i + 2, Some(a[i + 1]), adopt, force)
        }
    } else if a[i] == "--adopt"@ {
        create_flags(a, i + 1, dir, true, force)
    } else if a[i] == "--force"@ {
        create_flags(a, i + 1, dir, adopt, true)
    } else {
        Err("Unknown flag '"@ + a[i] + "' for project create"@)
    }
}

/// The flags of `project delete` from position `i` on: `--force`, `--archive`.
pub open spec fn delete_flags(a: Seq<Seq<char>>, i: int, force: bool, archive: bool) -> Result<(bool, bool), Seq<char>>
    decreases a.len() - i,
{
    if i < 0 || i >= a.len() {
        Ok((force, archive))
    } else if a[i] == "--force"@ {
        delete_flags(a, i + 1, true, archive)
    } else if a[i] == "--archive"@ {
        delete_flags(a, i + 1, force, true)
    } else {
        Err("Unknown flag '"@ + a[i] + "' for project delete"@)
    }
}

/// What the arguments `a` of command `kw` give: the command, or the error message.
pub open spec fn parse_args(kw: Kw, a: Seq<Seq<char>>) -> Result<CommandV, Seq<char>> {
    match kw {
        Kw::Init => Ok(CommandV::Init {
            fps: if a.len() >= 1 && is_float_literal(a[0]) { Some(a[0]) } else { None },
            resolution: opt_tok(a, 1),
            colorspace: opt_tok(a, 2),
        }),
        Kw::Import => if a.len() < 1 {
            Err("Missing path for import"@)
        } else {
            Ok(CommandV::Import { path: a[0] })
        },
        Kw::Trim => if a.len() < 1 {
            Err("Missing reference for trim"@)
        } else {
            match ref_arg(a[0]) {
                Err(m) => Err(m),
                Ok(r) => if a.len() < 2 {
                    Err("Missing start time for trim"@)
                } else if a.len() < 3 {
                    Err("Missing end time for trim"@)
                } else {
                    Ok(CommandV::Trim { r, start: a[1], end: a[2] })
                },
            }
        },
        Kw::Mix => if a.len() < 1 {
            Err("Missing reference for mix"@)
        } else {
            match ref_arg(a[0]) {
                Err(m) => Err(m),
                Ok(r) => if a.len() < 2 {
                    Err("Missing volume for mix"@)
                } else if !is_float_literal(a[1]) {
                    Err("Invalid volume float"@)
                } else {
                    Ok(CommandV::Mix { r, volume: a[1] })
                },
            }
        },
        Kw::Composite => if a.len() < 1 {
            Err("Missing base reference"@)
        } else {
            match ref_arg(a[0]) {
                Err(m) => Err(m),
                Ok(base) => if a.len() < 2 {
                    Err("Missing overlay reference"@)
                } else {
                    match ref_arg(a[1]) {
                        Err(m) => Err(m),
                        Ok(overlay) => if a.len() < 3 {
                            Err("Missing timestamp"@)
                        } else if a.len() < 4 {
                            Err("Missing x coordinate"@)
                        } else if i32_literal(a[3]) is None {
                            Err("Invalid x"@)
                        } else if a.len() < 5 {
                            Err("Missing y coordinate"@)
                        } else if i32_literal(a[4]) is None {
                            Err("Invalid y"@)
                        } else {
                            Ok(CommandV::Composite {
                                base,
                                overlay,
                                at: a[2],
                                x: i32_literal(a[3])->0,
                                y: i32_literal(a[4])->0,
                            })
                        },
                    }
                },
            }
        },
        Kw::Canvas => if a.len() < 1 {
            Err("Missing width"@)
        } else if u32_literal(a[0]) is None {
            Err("Invalid width"@)
        } else if a.len() < 2 {
            Err("Missing height"@)
        } else if u32_literal(a[1]) is None {
            Err("Invalid height"@)
        } else if a.len() < 3 {
            Err("Missing color"@)
        } else {
            Ok(CommandV::Canvas { width: u32_literal(a[0])->0, height: u32_literal(a[1])->0, color: a[2] })
        },
        Kw::DrawText => if a.len() < 1 {
            Err("Missing reference"@)
        } else {
            match ref_arg(a[0]) {
                Err(m) => Err(m),
                Ok(r) => if a.len() < 2 {
                    Err("Missing text"@)
                } else if a.len() < 3 {
                    Err("Missing font"@)
                } else if a.len() < 4 {
                    Err("Missing size"@)
                } else if !is_float_literal(a[3]) {
                    Err("Invalid size"@)
                } else if a.len() < 5 {
                    Err("Missing x"@)
                } else if i32_literal(a[4]) is None {
                    Err("Invalid x"@)
                } else if a.len() < 6 {
                    Err("Missing y"@)
                } else if i32_literal(a[5]) is None {
                    Err("Invalid y"@)
                } else {
                    Ok(CommandV::DrawText {
                        r,
                        text: a[1],
                        font: a[2],
                        size: a[3],
                        x: i32_literal(a[4])->0,
                        y: i32_literal(a[5])->0,
                    })
                },
            }
        },
        Kw::Export => if a.len() < 1 {
            Err("Missing reference"@)
        } else {
            match ref_arg(a[0]) {
                Err(m) => Err(m),
                Ok(r) => if a.len() < 2 {
                    Err("Missing format"@)
                } else {
                    Ok(CommandV::Export {
                        r,
                        format: a[1],
                        codec: if a.len() >= 3 { a[2] } else { "h264"@ },
                        quality: if a.len() >= 4 { a[3] } else { "high"@ },
                    })
                },
            }
        },
        Kw::Inspect => if a.len() < 1 {
            Err("Missing reference for inspect"@)
        } else {
            match ref_arg(a[0]) {
                Err(m) => Err(m),
                Ok(r) => Ok(CommandV::Inspect { r: Some(r), start: opt_tok(a, 1), end: opt_tok(a, 2) }),
            }
        },
        Kw::Storyboard => match request_model(a, "Missing request prompt"@) {
            Err(m) => Err(m),
            Ok((request, model)) => Ok(CommandV::GenerateStoryboardScratch { request, model, options: "{}"@ }),
        },
        Kw::Dialogue => match request_model(a, "Missing request prompt"@) {
            Err(m) => Err(m),
            Ok((request, model)) => Ok(CommandV::GenerateDialogue { request, model, options: "{}"@ }),
        },
        Kw::Image => match request_model(a, "Missing request prompt"@) {
            Err(m) => Err(m),
            Ok((request, model)) => Ok(CommandV::GenerateImage { request, model, inputs: Seq::empty(), options: "{}"@ }),
        },
        Kw::EditImage => match target_request_model(a, "Missing target image reference"@, "Missing edit request prompt"@) {
            Err(m) => Err(m),
            Ok((target, request, model)) => Ok(CommandV::EditImage { target, request, model, options: "{}"@ }),
        },
        Kw::Voice => if a.len() < 1 {
            Err("Missing text for voice generation"@)
        } else {
            Ok(CommandV::GenerateVoice { text: a[0], voice: opt_tok(a, 1), model: opt_tok(a, 2), options: "{}"@ })
        },
        Kw::CloneVoice => if a.len() < 1 {
            Err("Missing voice sample reference"@)
        } else {
            match ref_arg(a[0]) {
                Err(m) => Err(m),
                Ok(sample) => Ok(CommandV::CloneVoice { sample, name: opt_tok(a, 1), model: opt_tok(a, 2), options: "{}"@ }),
            }
        },
        Kw::SceneAudio => match request_model(a, "Missing scene audio description"@) {
            Err(m) => Err(m),
            Ok((request, model)) => Ok(CommandV::GenerateSceneAudio { request, model, options: "{}"@ }),
        },
        Kw::Music => match request_model(a, "Missing music description"@) {
            Err(m) => Err(m),
            Ok((request, model)) => Ok(CommandV::GenerateMusic { request, model, options: "{}"@ }),
        },
        Kw::Video => match request_model(a, "Missing video description"@) {
            Err(m) => Err(m),
            Ok((request, model)) => Ok(CommandV::GenerateVideoFromText { request, model, options: "{}"@ }),
        },
        Kw::VideoFrame => match target_request_model(a, "Missing frame reference"@, "Missing animation prompt"@) {
            Err(m) => Err(m),
            Ok((frame, request, model)) => Ok(CommandV::GenerateVideoFromFrame { frame, request, model, options: "{}"@ }),
        },
        Kw::VideoIngredients => {
            let q = prompt_index(a);
            if q >= a.len() {
                Err("Missing --prompt flag for video ingredients generation"@)
            } else {
                match refs_arg(a.take(q)) {
                    Err(m) => Err(m),
                    Ok(inputs) => if q + 1 >= a.len() {
                        Err("Missing prompt request after --prompt"@)
                    } else {
                        Ok(CommandV::GenerateVideoFromIngredients { inputs, request: a[q + 1], model: opt_tok(a, q + 2), options: "{}"@ })
                    },
                }
            }
        },
        Kw::EditVideo => match target_request_model(a, "Missing target video reference to edit"@, "Missing edit request prompt"@) {
            Err(m) => Err(m),
            Ok((target, request, model)) => Ok(CommandV::EditVideo { target, request, model, options: "{}"@ }),
        },
        Kw::Status => if a.len() < 1 {
            Ok(CommandV::GenerationStatus { r: None })
        } else {
            match ref_arg(a[0]) {
                Err(m) => Err(m),
                Ok(r) => Ok(CommandV::GenerationStatus { r: Some(r) }),
            }
        },
        Kw::Cancel => if a.len() < 1 {
            Err("Missing generation reference to cancel"@)
        } else {
            match ref_arg(a[0]) {
                Err(m) => Err(m),
                Ok(r) => Ok(CommandV::CancelGeneration { r }),
            }
        },
        Kw::Undo => Ok(CommandV::Undo),
        Kw::Redo => Ok(CommandV::Redo),
        Kw::Snapshot => Ok(CommandV::Snapshot),
        Kw::ProjectCreate => if a.len() < 1 {
            Err("Missing project name"@)
        } else {
            match create_flags(a, 1, None, false, false) {
                Err(m) => Err(m),
                Ok((dir, adopt, force)) => Ok(CommandV::ProjectCreate { name: a[0], dir, adopt, force }),
            }
        },
        Kw::ProjectOpen => if a.len() < 1 {
            Err("Missing project name or path to open"@)
        } else {
            Ok(CommandV::ProjectOpen { target: a[0] })
        },
        Kw::ProjectCurrent => Ok(CommandV::ProjectCurrent),
        Kw::ProjectClose => Ok(CommandV::ProjectClose { target: opt_tok(a, 0) }),
        Kw::ProjectList => Ok(CommandV::ProjectList),
        Kw::ProjectDelete => if a.len() < 1 {
            Err("Missing project name or path to delete"@)
        } else {
            match delete_flags(a, 1, false, false) {
                Err(m) => Err(m),
                Ok((force, archive)) => Ok(CommandV::ProjectDelete { target: a[0], force, archive }),
            }
        },
        Kw::Shutdown => Ok(CommandV::Shutdown),
    }
}

/// What a line's tokens read as: the command, or the error message.
pub open spec fn command_of(t: Seq<Seq<char>>) -> Result<CommandV, Seq<char>> {
    if t.len() == 0 {
        Err("Empty command"@)
    } else {
        match classify(t) {
            None => Err("Unknown command '"@ + unicode_lowercase(t[0]) + "'"@),
            Some((kw, n)) => parse_args(kw, t.skip(n)),
        }
    }
}

/// What reading a command line gives: the command, or the error message.
pub open spec fn dsl_parse(line: Seq<char>) -> Result<CommandV, Seq<char>> {
    match tokenize_spec(line) {
        Err(m) => Err(m),
        Ok(t) => command_of(t),
    }
}

/// The first word of a command is read without regard to ASCII case: two token
/// lists that differ only in it, in letters of the same lowercase, read as the same
/// command (an unknown word is named in its lowercase).
pub proof fn law_command_word_case(t: Seq<Seq<char>>, u: Seq<Seq<char>>)
    requires
        t.len() == u.len(),
        t.len() >= 1,
        t.skip(1) == u.skip(1),
        ascii_lower(t[0]) == ascii_lower(u[0]),
        unicode_lowercase(t[0]) == unicode_lowercase(u[0]),
    ensures
        command_of(t) == command_of(u),
{
    if t.len() >= 2 {
        assert(t[1] == t.skip(1)[0] && u[1] == u.skip(1)[0]);
        assert(t.skip(2) =~= t.skip(1).skip(1));
        assert(u.skip(2) =~= u.skip(1).skip(1));
    }
}

/// A `trim` line with a reference and two times reads as the trim of that
/// reference from the first time to the second: the arguments fill the fields in
/// order.
pub proof fn law_trim_arguments(line: Seq<char>, t: Seq<Seq<char>>, r: Ref)
    requires
        tokenize_spec(line) == Ok::<Seq<Seq<char>>, Seq<char>>(t),
        t.len() >= 4,
        ascii_lower(t[0]) == "trim"@,
        ref_parse(t[1]) == Ok::<Ref, Seq<char>>(r),
    ensures
        dsl_parse(line) == Ok::<CommandV, Seq<char>>(CommandV::Trim { r, start: t[2], end: t[3] }),
{
    reveal_strlit("trim");
    reveal_strlit("generate");
    reveal_strlit("edit");
    reveal_strlit("clone");
    reveal_strlit("generation");
    reveal_strlit("project");
    reveal_strlit("init");
    reveal_strlit("import");
    let w = ascii_lower(t[0]);
    assert(w[0] == 't' && w[1] == 'r' && w.len() == 4);
    assert(w != "generate"@ && w != "edit"@ && w != "clone"@ && w != "generation"@ && w != "project"@);
    assert(w != "init"@ && w != "import"@);
    assert(pair_kw(ascii_lower(t[0]), ascii_lower(t[1])) is None);
    assert(single_kw(ascii_lower(t[0])) == Some(Kw::Trim));
    let a = t.skip(1);
    assert(a[0] == t[1] && a[1] == t[2] && a[2] == t[3]);
}

/// A `canvas` line reads as a canvas of the first number's width, the second
/// number's height and the third token's color.
pub proof fn law_canvas_arguments(line: Seq<char>, t: Seq<Seq<char>>)
    requires
        tokenize_spec(line) == Ok::<Seq<Seq<char>>, Seq<char>>(t),
        t.len() >= 4,
        ascii_lower(t[0]) == "canvas"@,
        u32_literal(t[1]) is Some,
        u32_literal(t[2]) is Some,
    ensures
        dsl_parse(line) == Ok::<CommandV, Seq<char>>(
            CommandV::Canvas { width: u32_literal(t[1])->0, height: u32_literal(t[2])->0, color: t[3] },
        ),
{
    reveal_strlit("generate");
    reveal_strlit("edit");
    reveal_strlit("clone");
    reveal_strlit("generation");
    reveal_strlit("project");
    reveal_strlit("init");
    reveal_strlit("import");
    reveal_strlit("trim");
    reveal_strlit("mix");
    reveal_strlit("composite");
    reveal_strlit("canvas");
    reveal_strlit("draw_text");
    let w = ascii_lower(t[0]);
    assert(w.len() == 6 && w[0] == 'c' && w[1] == 'a');
    assert(pair_kw(w, ascii_lower(t[1])) is None);
    assert(single_kw(w) == Some(Kw::Canvas));
    let a = t.skip(1);
    assert(a[0] == t[1] && a[1] == t[2] && a[2] == t[3]);
}

/// A `mix` line reads as the mix of the reference at the volume that follows it.
pub proof fn law_mix_arguments(line: Seq<char>, t: Seq<Seq<char>>, r: Ref)
    requires
        tokenize_spec(line) == Ok::<Seq<Seq<char>>, Seq<char>>(t),
        t.len() >= 3,
        ascii_lower(t[0]) == "mix"@,
        ref_parse(t[1]) == Ok::<Ref, Seq<char>>(r),
        is_float_literal(t[2]),
    ensures
        dsl_parse(line) == Ok::<CommandV, Seq<char>>(CommandV::Mix { r, volume: t[2] }),
{
    reveal_strlit("generate");
    reveal_strlit("edit");
    reveal_strlit("clone");
    reveal_strlit("generation");
    reveal_strlit("project");
    reveal_strlit("init");
    reveal_strlit("import");
    reveal_strlit("trim");
    reveal_strlit("mix");
    reveal_strlit("composite");
    reveal_strlit("canvas");
    reveal_strlit("draw_text");
    let w = ascii_lower(t[0]);
    assert(w.len() == 3 && w[0] == 'm');
    assert(pair_kw(w, ascii_lower(t[1])) is None);
    assert(single_kw(w) == Some(Kw::Mix));
    let a = t.skip(1);
    assert(a[0] == t[1] && a[1] == t[2]);
}

/// A `composite` line reads as the first reference under the second, at the time,
/// x and y that follow, in that order.
pub proof fn law_composite_arguments(line: Seq<char>, t: Seq<Seq<char>>, base: Ref, overlay: Ref)
    requires
        tokenize_spec(line) == Ok::<Seq<Seq<char>>, Seq<char>>(t),
        t.len() >= 6,
        ascii_lower(t[0]) == "composite"@,
        ref_parse(t[1]) == Ok::<Ref, Seq<char>>(base),
        ref_parse(t[2]) == Ok::<Ref, Seq<char>>(overlay),
        i32_literal(t[4]) is Some,
        i32_literal(t[5]) is Some,
    ensures
        dsl_parse(line) == Ok::<CommandV, Seq<char>>(CommandV::Composite {
            base,
            overlay,
            at: t[3],
            x: i32_literal(t[4])->0,
            y: i32_literal(t[5])->0,
        }),
{
    reveal_strlit("generate");
    reveal_strlit("edit");
    reveal_strlit("clone");
    reveal_strlit("generation");
    reveal_strlit("project");
    reveal_strlit("init");
    reveal_strlit("import");
    reveal_strlit("trim");
    reveal_strlit("mix");
    reveal_strlit("composite");
    reveal_strlit("canvas");
    reveal_strlit("draw_text");
    let w = ascii_lower(t[0]);
    assert(w.len() == 9 && w[0] == 'c' && w[1] == 'o');
    assert(pair_kw(w, ascii_lower(t[1])) is None);
    assert(single_kw(w) == Some(Kw::Composite));
    let a = t.skip(1);
    assert(a[0] == t[1] && a[1] == t[2] && a[2] == t[3] && a[3] == t[4] && a[4] == t[5]);
}

/// A `draw_text` line reads as the text, font, size, x and y that follow the
/// reference, in that order.
pub proof fn law_draw_text_arguments(line: Seq<char>, t: Seq<Seq<char>>, r: Ref)
    requires
        tokenize_spec(line) == Ok::<Seq<Seq<char>>, Seq<char>>(t),
        t.len() >= 7,
        ascii_lower(t[0]) == "draw_text"@,
        ref_parse(t[1]) == Ok::<Ref, Seq<char>>(r),
        is_float_literal(t[4]),
        i32_literal(t[5]) is Some,
        i32_literal(t[6]) is Some,
    ensures
        dsl_parse(line) == Ok::<CommandV, Seq<char>>(CommandV::DrawText {
            r,
            text: t[2],
            font: t[3],
            size: t[4],
            x: i32_literal(t[5])->0,
            y: i32_literal(t[6])->0,
        }),
{
    reveal_strlit("generate");
    reveal_strlit("edit");
    reveal_strlit("clone");
    reveal_strlit("generation");
    reveal_strlit("project");
    reveal_strlit("init");
    reveal_strlit("import");
    reveal_strlit("trim");
    reveal_strlit("mix");
    reveal_strlit("composite");
    reveal_strlit("canvas");
    reveal_strlit("draw_text");
    let w = ascii_lower(t[0]);
    assert(w.len() == 9 && w[0] == 'd');
    assert(pair_kw(w, ascii_lower(t[1])) is None);
    assert(single_kw(w) == Some(Kw::DrawText));
    let a = t.skip(1);
    assert(a[0] == t[1] && a[1] == t[2] && a[2] == t[3] && a[3] == t[4] && a[4] == t[5] && a[5] == t[6]);
}

/// The two words of a two-word command are read without regard to ASCII case.
pub proof fn law_command_pair_case(t: Seq<Seq<char>>, u: Seq<Seq<char>>)
    requires
        t.len() == u.len(),
        t.len() >= 2,
        t.skip(2) == u.skip(2),
        ascii_lower(t[0]) == ascii_lower(u[0]),
        ascii_lower(t[1]) == ascii_lower(u[1]),
        pair_kw(ascii_lower(t[0]), ascii_lower(t[1])) is Some,
    ensures
        command_of(t) == command_of(u),
{
}

// ---------------------------------------------------------------------------
// Executable parser
// ---------------------------------------------------------------------------

/// `r` matches the spec result `s`: the same command, or the same message.
pub open spec fn matches_result(r: Result<Command, String>, s: Result<CommandV, Seq<char>>) -> bool {
    match r {
        Ok(c) => s == Ok::<CommandV, Seq<char>>(c@),
        Err(m) => s == Err::<CommandV, Seq<char>>(m@),
    }
}

fn tok(a: &Vec<Vec<char>>, i: usize) -> (s: String)
    requires
        i < a.len(),
    ensures
        s@ == a@[i as int]@,
{
    string_of(&a[i])
}

fn opt(a: &Vec<Vec<char>>, i: usize) -> (s: Option<String>)
    ensures
        opt_view(s) == opt_tok(views(a@), i as int),
{
    if i < a.len() {
        Some(string_of(&a[i]))
    } else {
        None
    }
}

fn arg_ref(t: &Vec<char>) -> (r: Result<Ref, String>)
    ensures
        match r {
            Ok(x) => ref_arg(t@) == Ok::<Ref, Seq<char>>(x),
            Err(m) => ref_arg(t@) == Err::<Ref, Seq<char>>(m@),
        },
{
    let s = string_of(t);
    match Ref::parse(s.as_str()) {
        Ok(x) => Ok(x),
        Err(crate::refs::AetherError::InvalidRef(src, m)) => {
            let mut out = owned("Invalid Reference '");
            push_str(&mut out, src.as_str());
            push_str(&mut out, "': ");
            push_str(&mut out, m.as_str());
            Err(out)
        },
        Err(_) => {
            assert(false);
            Err(String::new())
        },
    }
}

fn lit_err(m: &str) -> (r: Result<Command, String>)
    ensures
        r matches Err(e) && e@ == m@,
{
    Err(owned(m))
}

fn parse_trim(a: &Vec<Vec<char>>) -> (r: Result<Command, String>)
    ensures
        matches_result(r, parse_args(Kw::Trim, views(a@))),
{
    if a.len() < 1 {
        return lit_err("Missing reference for trim");
    }
    let r = match arg_ref(&a[0]) {
        Ok(x) => x,
        Err(m) => {
            return Err(m);
        },
    };
    if a.len() < 2 {
        return lit_err("Missing start time for trim");
    }
    if a.len() < 3 {
        return lit_err("Missing end time for trim");
    }
    Ok(Command::Trim { r, start: tok(a, 1), end: tok(a, 2) })
}

fn parse_mix(a: &Vec<Vec<char>>) -> (r: Result<Command, String>)
    ensures
        matches_result(r, parse_args(Kw::Mix, views(a@))),
{
    if a.len() < 1 {
        return lit_err("Missing reference for mix");
    }
    let r = match arg_ref(&a[0]) {
        Ok(x) => x,
        Err(m) => {
            return Err(m);
        },
    };
    if a.len() < 2 {
        return lit_err("Missing volume for mix");
    }
    if !is_float_text(&a[1]) {
        return lit_err("Invalid volume float");
    }
    Ok(Command::Mix { r, volume: tok(a, 1) })
}

fn parse_composite(a: &Vec<Vec<char>>) -> (r: Result<Command, String>)
    ensures
        matches_result(r, parse_args(Kw::Composite, views(a@))),
{
    if a.len() < 1 {
        return lit_err("Missing base reference");
    }
    let base = match arg_ref(&a[0]) {
        Ok(x) => x,
        Err(m) => {
            return Err(m);
        },
    };
    if a.len() < 2 {
        return lit_err("Missing overlay reference");
    }
    let overlay = match arg_ref(&a[1]) {
        Ok(x) => x,
        Err(m) => {
            return Err(m);
        },
    };
    if a.len() < 3 {
        return lit_err("Missing timestamp");
    }
    if a.len() < 4 {
        return lit_err("Missing x coordinate");
    }
    let x = match parse_i32(&a[3]) {
        Some(v) => v,
        None => {
            return lit_err("Invalid x");
        },
    };
    if a.len() < 5 {
        return lit_err("Missing y coordinate");
    }
    let y = match parse_i32(&a[4]) {
        Some(v) => v,
        None => {
            return lit_err("Invalid y");
        },
    };
    Ok(Command::Composite { base, overlay, at: tok(a, 2), x, y })
}

fn parse_canvas(a: &Vec<Vec<char>>) -> (r: Result<Command, String>)
    ensures
        matches_result(r, parse_args(Kw::Canvas, views(a@))),
{
    if a.len() < 1 {
        return lit_err("Missing width");
    }
    let width = match parse_u32(&a[0]) {
        Some(v) => v,
        None => {
            return lit_err("Invalid width");
        },
    };
    if a.len() < 2 {
        return lit_err("Missing height");
    }
    let height = match parse_u32(&a[1]) {
        Some(v) => v,
        None => {
            return lit_err("Invalid height");
        },
    };
    if a.len() < 3 {
        return lit_err("Missing color");
    }
    Ok(Command::Canvas { width, height, color: tok(a, 2) })
}

fn parse_draw_text(a: &Vec<Vec<char>>) -> (r: Result<Command, String>)
    ensures
        matches_result(r, parse_args(Kw::DrawText, views(a@))),
{
    if a.len() < 1 {
        return lit_err("Missing reference");
    }
    let r = match arg_ref(&a[0]) {
        Ok(x) => x,
        Err(m) => {
            return Err(m);
        },
    };
    if a.len() < 2 {
        return lit_err("Missing text");
    }
    if a.len() < 3 {
        return lit_err("Missing font");
    }
    if a.len() < 4 {
        return lit_err("Missing size");
    }
    if !is_float_text(&a[3]) {
        return lit_err("Invalid size");
    }
    if a.len() < 5 {
        return lit_err("Missing x");
    }
    let x = match parse_i32(&a[4]) {
        Some(v) => v,
        None => {
            return lit_err("Invalid x");
        },
    };
    if a.len() < 6 {
        return lit_err("Missing y");
    }
    let y = match parse_i32(&a[5]) {
        Some(v) => v,
        None => {
            return lit_err("Invalid y");
        },
    };
    Ok(Command::DrawText { r, text: tok(a, 1), font: tok(a, 2), size: tok(a, 3), x, y })
}

fn parse_export(a: &Vec<Vec<char>>) -> (r: Result<Command, String>)
    ensures
        matches_result(r, parse_args(Kw::Export, views(a@))),
{
    if a.len() < 1 {
        return lit_err("Missing reference");
    }
    let r = match arg_ref(&a[0]) {
        Ok(x) => x,
        Err(m) => {
            return Err(m);
        },
    };
    if a.len() < 2 {
        return lit_err("Missing format");
    }
    let codec = if a.len() >= 3 { tok(a, 2) } else { owned("h264") };
    let quality = if a.len() >= 4 { tok(a, 3) } else { owned("high") };
    Ok(Command::Export { r, format: tok(a, 1), codec, quality })
}

fn parse_ref_first(a: &Vec<Vec<char>>, kw: Kw) -> (r: Result<Command, String>)
    requires
        kw == Kw::Inspect || kw == Kw::CloneVoice || kw == Kw::Cancel || kw == Kw::Status,
    ensures
        matches_result(r, parse_args(kw, views(a@))),
{
    if a.len() < 1 {
        return match kw {
            Kw::Inspect => lit_err("Missing reference for inspect"),
            Kw::CloneVoice => lit_err("Missing voice sample reference"),
            Kw::Cancel => lit_err("Missing generation reference to cancel"),
            _ => Ok(Command::GenerationStatus { r: None }),
        };
    }
    let r = match arg_ref(&a[0]) {
        Ok(x) => x,
        Err(m) => {
            return Err(m);
        },
    };
    match kw {
        Kw::Inspect => Ok(Command::Inspect { r: Some(r), start: opt(a, 1), end: opt(a, 2) }),
        Kw::CloneVoice => Ok(Command::CloneVoice { sample: r, name: opt(a, 1), model: opt(a, 2), options: owned("{}") }),
        Kw::Cancel => Ok(Command::CancelGeneration { r }),
        _ => Ok(Command::GenerationStatus { r: Some(r) }),
    }
}

fn parse_request(a: &Vec<Vec<char>>, kw: Kw) -> (r: Result<Command, String>)
    requires
        kw == Kw::Storyboard || kw == Kw::Dialogue || kw == Kw::Image || kw == Kw::SceneAudio
            || kw == Kw::Music || kw == Kw::Video,
    ensures
        matches_result(r, parse_args(kw, views(a@))),
{
    if a.len() < 1 {
        return match kw {
            Kw::SceneAudio => lit_err("Missing scene audio description"),
            Kw::Music => lit_err("Missing music description"),
            Kw::Video => lit_err("Missing video description"),
            _ => lit_err("Missing request prompt"),
        };
    }
    let request = tok(a, 0);
    let model = opt(a, 1);
    match kw {
        Kw::Storyboard => Ok(Command::GenerateStoryboardScratch { request, model, options: owned("{}") }),
        Kw::Dialogue => Ok(Command::GenerateDialogue { request, model, options: owned("{}") }),
        Kw::Image => {
            let inputs: Vec<Ref> = Vec::new();
            Ok(Command::GenerateImage { request, model, inputs, options: owned("{}") })
        },
        Kw::SceneAudio => Ok(Command::GenerateSceneAudio { request, model, options: owned("{}") }),
        Kw::Music => Ok(Command::GenerateMusic { request, model, options: owned("{}") }),
        _ => Ok(Command::GenerateVideoFromText { request, model, options: owned("{}") }),
    }
}

fn parse_target_request(a: &Vec<Vec<char>>, kw: Kw) -> (r: Result<Command, String>)
    requires
        kw == Kw::EditImage || kw == Kw::VideoFrame || kw == Kw::EditVideo,
    ensures
        matches_result(r, parse_args(kw, views(a@))),
{
    if a.len() < 1 {
        return match kw {
            Kw::EditImage => lit_err("Missing target image reference"),
            Kw::VideoFrame => lit_err("Missing frame reference"),
            _ => lit_err("Missing target video reference to edit"),
        };
    }
    let target = match arg_ref(&a[0]) {
        Ok(x) => x,
        Err(m) => {
            return Err(m);
        },
    };
    if a.len() < 2 {
        return match kw {
            Kw::VideoFrame => lit_err("Missing animation prompt"),
            _ => lit_err("Missing edit request prompt"),
        };
    }
    let request = tok(a, 1);
    let model = opt(a, 2);
    match kw {
        Kw::EditImage => Ok(Command::EditImage { target, request, model, options: owned("{}") }),
        Kw::VideoFrame => Ok(Command::GenerateVideoFromFrame { frame: target, request, model, options: owned("{}") }),
        _ => Ok(Command::EditVideo { target, request, model, options: owned("{}") }),
    }
}

fn parse_ingredients(a: &Vec<Vec<char>>) -> (r: Result<Command, String>)
    ensures
        matches_result(r, parse_args(Kw::VideoIngredients, views(a@))),
{
    let ghost va = views(a@);
    let mut q: usize = 0;
    assert(va.skip(0) =~= va);
    while q < a.len() && !chars_eq(&a[q], "--prompt")
        invariant
            va == views(a@),
            q <= a.len(),
            prompt_index(va) == q + prompt_index(va.skip(q as int)),
        decreases a.len() - q,
    {
        assert(va.skip(q as int)[0] == a@[q as int]@);
        assert(va.skip(q as int).drop_first() =~= va.skip(q + 1));
        q = q + 1;
    }
    proof {
        if q < a.len() {
            assert(va.skip(q as int)[0] == a@[q as int]@);
        }
        assert(prompt_index(va) == q);
    }
    if q >= a.len() {
        return lit_err("Missing --prompt flag for video ingredients generation");
    }
    let mut inputs: Vec<Ref> = Vec::new();
    let mut i: usize = 0;
    assert(va.take(q as int).take(0) =~= Seq::<Seq<char>>::empty());
    while i < q
        invariant
            va == views(a@),
            q < a.len(),
            i <= q,
            prompt_index(va) == q,
            refs_arg(va.take(q as int).take(i as int)) == Ok::<Seq<Ref>, Seq<char>>(inputs@),
            refs_arg(va.take(q as int)) == refs_arg(va.take(q as int).take(i as int)) ==> true,
        decreases q - i,
    {
        let ghost pre = va.take(q as int).take(i as int);
        let ghost next = va.take(q as int).take(i + 1);
        assert(next.drop_last() =~= pre);
        assert(next.last() == a@[i as int]@);
        match arg_ref(&a[i]) {
            Ok(r) => {
                inputs.push(r);
            },
            Err(m) => {
                proof {
                    lemma_refs_arg_prefix_err(va.take(q as int), i as int);
                }
                return Err(m);
            },
        }
        i = i + 1;
    }
    assert(va.take(q as int).take(q as int) =~= va.take(q as int));
    if q + 1 >= a.len() {
        return lit_err("Missing prompt request after --prompt");
    }
    let request = tok(a, q + 1);
    let model = opt(a, q + 2);
    Ok(Command::GenerateVideoFromIngredients { inputs, request, model, options: owned("{}") })
}

/// An error while reading the first `i + 1` tokens as references is the error of all of them.
proof fn lemma_refs_arg_prefix_err(a: Seq<Seq<char>>, i: int)
    requires
        0 <= i < a.len(),
        refs_arg(a.take(i)) is Ok,
        ref_arg(a[i]) is Err,
    ensures
        refs_arg(a) == Err::<Seq<Ref>, Seq<char>>(ref_arg(a[i])->Err_0),
    decreases a.len() - i,
{
    assert(a.take(i + 1).drop_last() =~= a.take(i));
    assert(a.take(i + 1).last() == a[i]);
    lemma_refs_arg_err_extends(a, i + 1);
}

proof fn lemma_refs_arg_err_extends(a: Seq<Seq<char>>, n: int)
    requires
        0 <= n <= a.len(),
        refs_arg(a.take(n)) is Err,
    ensures
        refs_arg(a) == refs_arg(a.take(n)),
    decreases a.len() - n,
{
    if n == a.len() {
        assert(a.take(n) =~= a);
    } else {
        assert(a.take(n + 1).drop_last() =~= a.take(n));
        lemma_refs_arg_err_extends(a, n + 1);
    }
}

fn parse_project_create(a: &Vec<Vec<char>>) -> (r: Result<Command, String>)
    ensures
        matches_result(r, parse_args(Kw::ProjectCreate, views(a@))),
{
    let ghost va = views(a@);
    if a.len() < 1 {
        return lit_err("Missing project name");
    }
    let mut dir: Option<String> = None;
    let mut adopt = false;
    let mut force = false;
    let mut i: usize = 1;
    while i < a.len()
        invariant
            va == views(a@),
            1 <= i <= a.len() + 1,
            create_flags(va, 1, None, false, false) == create_flags(va, i as int, opt_view(dir), adopt, force),
        decreases a.len() + 1 - i,
    {
        if chars_eq(&a[i], "--dir") {
            if i + 1 >= a.len() {
                return lit_err("Missing value for --dir");
            }
            dir = Some(tok(a, i + 1));
            i = i + 2;
        } else if chars_eq(&a[i], "--adopt") {
            adopt = true;
            i = i + 1;
        } else if chars_eq(&a[i], "--force") {
            force = true;
            i = i + 1;
        } else {
            let mut m = owned("Unknown flag '");
            let f = tok(a, i);
            push_str(&mut m, f.as_str());
            push_str(&mut m, "' for project create");
            return Err(m);
        }
    }
    Ok(Command::ProjectCreate { name: tok(a, 0), dir, adopt, force })
}

fn parse_project_delete(a: &Vec<Vec<char>>) -> (r: Result<Command, String>)
    ensures
        matches_result(r, parse_args(Kw::ProjectDelete, views(a@))),
{
    let ghost va = views(a@);
    if a.len() < 1 {
        return lit_err("Missing project name or path to delete");
    }
    let mut force = false;
    let mut archive = false;
    let mut i: usize = 1;
    while i < a.len()
        invariant
            va == views(a@),
            1 <= i <= a.len(),
            delete_flags(va, 1, false, false) == delete_flags(va, i as int, force, archive),
        decreases a.len() - i,
    {
        if chars_eq(&a[i], "--force") {
            force = true;
        } else if chars_eq(&a[i], "--archive") {
            archive = true;
        } else {
            let mut m = owned("Unknown flag '");
            let f = tok(a, i);
            push_str(&mut m, f.as_str());
            push_str(&mut m, "' for project delete");
            return Err(m);
        }
        i = i + 1;
    }
    Ok(Command::ProjectDelete { target: tok(a, 0), force, archive })
}

fn parse_kw_args(kw: Kw, a: &Vec<Vec<char>>) -> (r: Result<Command, String>)
    ensures
        matches_result(r, parse_args(kw, views(a@))),
{
    match kw {
        Kw::Init => {
            let fps = if a.len() >= 1 && is_float_text(&a[0]) { Some(tok(a, 0)) } else { None };
            Ok(Command::Init { fps, resolution: opt(a, 1), colorspace: opt(a, 2) })
        },
        Kw::Import => {
            if a.len() < 1 {
                lit_err("Missing path for import")
            } else {
                Ok(Command::Import { path: tok(a, 0) })
            }
        },
        Kw::Trim => parse_trim(a),
        Kw::Mix => parse_mix(a),
        Kw::Composite => parse_composite(a),
        Kw::Canvas => parse_canvas(a),
        Kw::DrawText => parse_draw_text(a),
        Kw::Export => parse_export(a),
        Kw::Inspect | Kw::CloneVoice | Kw::Cancel | Kw::Status => parse_ref_first(a, kw),
        Kw::Storyboard | Kw::Dialogue | Kw::Image | Kw::SceneAudio | Kw::Music | Kw::Video => parse_request(a, kw),
        Kw::EditImage | Kw::VideoFrame | Kw::EditVideo => parse_target_request(a, kw),
        Kw::Voice => {
            if a.len() < 1 {
                lit_err("Missing text for voice generation")
            } else {
                Ok(Command::GenerateVoice { text: tok(a, 0), voice: opt(a, 1), model: opt(a, 2), options: owned("{}") })
            }
        },
        Kw::VideoIngredients => parse_ingredients(a),
        Kw::Undo => Ok(Command::Undo),
        Kw::Redo => Ok(Command::Redo),
        Kw::Snapshot => Ok(Command::Snapshot),
        Kw::ProjectCreate => parse_project_create(a),
        Kw::ProjectOpen => {
            if a.len() < 1 {
                lit_err("Missing project name or path to open")
            } else {
                Ok(Command::ProjectOpen { target: tok(a, 0) })
            }
        },
        Kw::ProjectCurrent => Ok(Command::ProjectCurrent),
        Kw::ProjectClose => Ok(Command::ProjectClose { target: opt(a, 0) }),
        Kw::ProjectList => Ok(Command::ProjectList),
        Kw::ProjectDelete => parse_project_delete(a),
        Kw::Shutdown => Ok(Command::Shutdown),
    }
}

/// Reads the command that two lowercased leading words name together.
fn pair_keyword(a: &Vec<char>, b: &Vec<char>) -> (r: Option<Kw>)
    ensures
        r == pair_kw(a@, b@),
{
    if chars_eq(a, "generate") {
        if chars_eq(b, "storyboard-scratch") || chars_eq(b, "storyboard_scratch") {
            Some(Kw::Storyboard)
        } else if chars_eq(b, "dialogue") {
            Some(Kw::Dialogue)
        } else if chars_eq(b, "image") {
            Some(Kw::Image)
        } else if chars_eq(b, "voice") {
            Some(Kw::Voice)
        } else if chars_eq(b, "scene-audio") || chars_eq(b, "scene_audio") {
            Some(Kw::SceneAudio)
        } else if chars_eq(b, "music") {
            Some(Kw::Music)
        } else if chars_eq(b, "video-text") || chars_eq(b, "video_text") || chars_eq(b, "video") {
            Some(Kw::Video)
        } else if chars_eq(b, "video-frame") || chars_eq(b, "video_frame") {
            Some(Kw::VideoFrame)
        } else if chars_eq(b, "video-ingredients") || chars_eq(b, "video_ingredients") {
            Some(Kw::VideoIngredients)
        } else {
            None
        }
    } else if chars_eq(a, "edit") {
        if chars_eq(b, "image") {
            Some(Kw::EditImage)
        } else if chars_eq(b, "video") {
            Some(Kw::EditVideo)
        } else {
            None
        }
    } else if chars_eq(a, "clone") {
        if chars_eq(b, "voice") {
            Some(Kw::CloneVoice)
        } else {
            None
        }
    } else if chars_eq(a, "generation") {
        if chars_eq(b, "status") {
            Some(Kw::Status)
        } else if chars_eq(b, "cancel") {
            Some(Kw::Cancel)
        } else {
            None
        }
    } else if chars_eq(a, "project") {
        if chars_eq(b, "create") {
            Some(Kw::ProjectCreate)
        } else if chars_eq(b, "open") {
            Some(Kw::ProjectOpen)
        } else if chars_eq(b, "current") {
            Some(Kw::ProjectCurrent)
        } else if chars_eq(b, "close") {
            Some(Kw::ProjectClose)
        } else if chars_eq(b, "list") {
            Some(Kw::ProjectList)
        } else if chars_eq(b, "delete") {
            Some(Kw::ProjectDelete)
        } else {
            None
        }
    } else {
        None
    }
}

/// Reads the command that one lowercased leading word names.
fn single_keyword(a: &Vec<char>) -> (r: Option<Kw>)
    ensures
        r == single_kw(a@),
{
    if chars_eq(a, "init") {
        Some(Kw::Init)
    } else if chars_eq(a, "import") {
        Some(Kw::Import)
    } else if chars_eq(a, "trim") {
        Some(Kw::Trim)
    } else if chars_eq(a, "mix") {
        Some(Kw::Mix)
    } else if chars_eq(a, "composite") {
        Some(Kw::Composite)
    } else if chars_eq(a, "canvas") {
        Some(Kw::Canvas)
    } else if chars_eq(a, "draw_text") {
        Some(Kw::DrawText)
    } else if chars_eq(a, "export") {
        Some(Kw::Export)
    } else if chars_eq(a, "inspect") {
        Some(Kw::Inspect)
    } else if chars_eq(a, "generate_storyboard_scratch") || chars_eq(a, "storyboard_scratch") {
        Some(Kw::Storyboard)
    } else if chars_eq(a, "generate_dialogue") || chars_eq(a, "dialogue") {
        Some(Kw::Dialogue)
    } else if chars_eq(a, "generate_image") || chars_eq(a, "image") {
        Some(Kw::Image)
    } else if chars_eq(a, "edit_image") {
        Some(Kw::EditImage)
    } else if chars_eq(a, "generate_voice") || chars_eq(a, "voice") {
        Some(Kw::Voice)
    } else if chars_eq(a, "clone_voice") {
        Some(Kw::CloneVoice)
    } else if chars_eq(a, "generate_scene_audio") || chars_eq(a, "scene_audio") {
        Some(Kw::SceneAudio)
    } else if chars_eq(a, "generate_music") || chars_eq(a, "music") {
        Some(Kw::Music)
    } else if chars_eq(a, "generate_video") || chars_eq(a, "video") {
        Some(Kw::Video)
    } else if chars_eq(a, "generate_video_frame") || chars_eq(a, "video_frame") {
        Some(Kw::VideoFrame)
    } else if chars_eq(a, "generate_video_ingredients") {
        Some(Kw::VideoIngredients)
    } else if chars_eq(a, "edit_video") {
        Some(Kw::EditVideo)
    } else if chars_eq(a, "generation_status") || chars_eq(a, "status") {
        Some(Kw::Status)
    } else if chars_eq(a, "cancel_generation") || chars_eq(a, "cancel") {
        Some(Kw::Cancel)
    } else if chars_eq(a, "undo") {
        Some(Kw::Undo)
    } else if chars_eq(a, "redo") {
        Some(Kw::Redo)
    } else if chars_eq(a, "snapshot") {
        Some(Kw::Snapshot)
    } else if chars_eq(a, "project_create") {
        Some(Kw::ProjectCreate)
    } else if chars_eq(a, "project_open") {
        Some(Kw::ProjectOpen)
    } else if chars_eq(a, "project_current") {
        Some(Kw::ProjectCurrent)
    } else if chars_eq(a, "project_close") {
        Some(Kw::ProjectClose)
    } else if chars_eq(a, "project_list") {
        Some(Kw::ProjectList)
    } else if chars_eq(a, "project_delete") {
        Some(Kw::ProjectDelete)
    } else if chars_eq(a, "shutdown") {
        Some(Kw::Shutdown)
    } else {
        None
    }
}

/// Reads a command line of the language: tokens, then the command word (one word, or
/// two words such as `generate image`, in any ASCII case), then its arguments.
pub fn parse_dsl(line: &str) -> (r: Result<Command, String>)
    ensures
        matches_result(r, dsl_parse(line@)),
{
    let tokens = match tokenize_chars(line) {
        Ok(t) => t,
        Err(m) => {
            return Err(m);
        },
    };
    let ghost t = views(tokens@);
    if tokens.len() == 0 {
        return Err(owned("Empty command"));
    }
    let l0 = lower_chars(&tokens[0]);
    let mut kw: Option<Kw> = None;
    let mut n: usize = 1;
    if tokens.len() >= 2 {
        let l1 = lower_chars(&tokens[1]);
        match pair_keyword(&l0, &l1) {
            Some(k) => {
                kw = Some(k);
                n = 2;
            },
            None => {},
        }
    }
    if kw.is_none() {
        kw = single_keyword(&l0);
    }
    proof {
        assert(t[0] == tokens@[0]@);
        if tokens.len() >= 2 {
            assert(t[1] == tokens@[1]@);
        }
    }
    match kw {
        None => {
            let first = string_of(&tokens[0]);
            let lower = to_lowercase(first.as_str());
            let mut m = owned("Unknown command '");
            push_str(&mut m, lower.as_str());
            push_str(&mut m, "'");
            Err(m)
        },
        Some(k) => {
            let mut args: Vec<Vec<char>> = Vec::new();
            let mut i = n;
            while i < tokens.len()
                invariant
                    n <= i <= tokens.len(),
                    views(args@) == t.subrange(n as int, i as int),
                    t == views(tokens@),
                decreases tokens.len() - i,
            {
                let ghost before = args@;
                args.push(tokens[i].clone());
                assert(views(args@) =~= views(before).push(tokens@[i as int]@));
                i = i + 1;
                assert(t.subrange(n as int, i as int) =~= t.subrange(n as int, i - 1).push(t[i - 1]));
            }
            assert(t.subrange(n as int, i as int) =~= t.skip(n as int));
            parse_kw_args(k, &args)
        },
    }
}

/// The project commands, which the command line runs itself rather than sending
/// to the project's daemon.
pub open spec fn project_command_spec(c: CommandV) -> bool {
    c is ProjectCreate || c is ProjectOpen || c is ProjectCurrent || c is ProjectClose || c is ProjectList
        || c is ProjectDelete
}

/// Whether `cmd` is a project command.
pub fn is_project_command(cmd: &Command) -> (r: bool)
    ensures
        r == project_command_spec(cmd@),
{
    match cmd {
        Command::ProjectCreate { .. } | Command::ProjectOpen { .. } | Command::ProjectCurrent
        | Command::ProjectClose { .. } | Command::ProjectList | Command::ProjectDelete { .. } => true,
        _ => false,
    }
}

} // verus!
