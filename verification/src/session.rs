//! Decisions of an editing session: which commands are recorded in the history,
//! where undo and redo move, and how a generation command becomes a request.

use vstd::prelude::*;
use crate::dsl::{opt_view, string_views, Command, CommandV};
use crate::generate::{copy_opt, GenerationKind};
use crate::refs::{ref_text, AetherError, ErrorV, Ref, RefKind};
use crate::registry::{Asset, AssetKind, RefRegistry};
use crate::job::{GeneratedArtifactKind, GenerationArtifact, GenerationStatus};
use crate::edit::{allocation, counters_after, edit_spec, first_missing, plan_edit, step_outcome, EditStep, ProjectSettings};
use crate::job::{GenerationOptions, OptionsView, PromptContextView};
use crate::vault::{assets_view, compile_spec, links_view, Vault, VaultAsset, VaultLinks, VaultManager};
use crate::graph::{CompositionGraph, Connection, Node, NodeId};
use crate::timeline::{Timeline, TrackV};
use crate::text::{chars_of, first_index, has_substring, lemma_first_index, lemma_first_index_none, lemma_first_index_props, owned, push_str, str_contains, str_eq};

verus! {

// ---------------------------------------------------------------------------
// History
// ---------------------------------------------------------------------------

/// A commit of the session history: its hash, its parent's and its branch.
#[derive(Debug, Clone)]
pub struct HistoryEntry {
    pub commit: String,
    pub parent: Option<String>,
    pub branch: String,
}

/// A history entry, as character sequences.
pub struct EntryView {
    pub commit: Seq<char>,
    pub parent: Option<Seq<char>>,
    pub branch: Seq<char>,
}

impl View for HistoryEntry {
    type V = EntryView;

    open spec fn view(&self) -> EntryView {
        EntryView { commit: self.commit@, parent: opt_view(self.parent), branch: self.branch@ }
    }
}

/// The views of a history.
pub open spec fn history_view(s: Seq<HistoryEntry>) -> Seq<EntryView> {
    s.map_values(|e: HistoryEntry| e@)
}

/// Undo from commit `current`: refused at the first state (no commit); else the
/// parent of the first entry for `current`, or the empty state when it has none
/// or the history does not know it.
pub open spec fn undo_spec(current: Seq<char>, h: Seq<EntryView>) -> Result<Seq<char>, Seq<char>> {
    if current.len() == 0 {
        Err("Already at first history state"@)
    } else {
        match first_index(h, |e: EntryView| e.commit == current) {
            Some(i) => Ok(
                match h[i].parent {
                    Some(p) => p,
                    None => Seq::empty(),
                },
            ),
            None => Ok(Seq::empty()),
        }
    }
}

/// Redo from commit `current` on `branch`: the first commit of that branch whose
/// parent is `current`; refused when there is none.
pub open spec fn redo_spec(current: Seq<char>, branch: Seq<char>, h: Seq<EntryView>) -> Result<Seq<char>, Seq<char>> {
    match first_index(h, |e: EntryView| e.parent == Some(current) && e.branch == branch) {
        Some(i) => Ok(h[i].commit),
        None => Err("Already at newest history state"@),
    }
}

/// `r` is the outcome `expected` describes: the commit to move to, or the
/// refusal.
pub open spec fn move_outcome(r: Result<String, AetherError>, expected: Result<Seq<char>, Seq<char>>) -> bool {
    match expected {
        Ok(c) => r matches Ok(x) && x@ == c,
        Err(m) => r matches Err(AetherError::OperationFailed(x)) && x@ == m,
    }
}

/// The commit that undo moves to from `current`.
pub fn undo_target(current: &str, history: &Vec<HistoryEntry>) -> (r: Result<String, AetherError>)
    ensures
        move_outcome(r, undo_spec(current@, history_view(history@))),
{
    if current.unicode_len() == 0 {
        return Err(AetherError::OperationFailed(owned("Already at first history state")));
    }
    let ghost h = history_view(history@);
    let mut i: usize = 0;
    while i < history.len()
        invariant
            i <= history.len(),
            h == history_view(history@),
            current@.len() != 0,
            forall|j: int| 0 <= j < i ==> (#[trigger] h[j]).commit != current@,
        decreases history.len() - i,
    {
        assert(h[i as int] == history@[i as int]@);
        if str_eq(history[i].commit.as_str(), current) {
            proof {
                lemma_first_index(h, |e: EntryView| e.commit == current@, i as int);
            }
            let target = match &history[i].parent {
                Some(p) => p.clone(),
                None => String::new(),
            };
            assert(target@ == match h[i as int].parent {
                Some(p) => p,
                None => Seq::<char>::empty(),
            });
            return Ok(target);
        }
        i = i + 1;
    }
    proof {
        lemma_first_index_none(h, |e: EntryView| e.commit == current@);
    }
    Ok(String::new())
}

/// The commit that redo moves to from `current` on `branch`.
pub fn redo_target(current: &str, branch: &str, history: &Vec<HistoryEntry>) -> (r: Result<String, AetherError>)
    ensures
        move_outcome(r, redo_spec(current@, branch@, history_view(history@))),
{
    let ghost h = history_view(history@);
    let mut i: usize = 0;
    while i < history.len()
        invariant
            i <= history.len(),
            h == history_view(history@),
            forall|j: int| 0 <= j < i ==> !((#[trigger] h[j]).parent == Some(current@) && h[j].branch == branch@),
        decreases history.len() - i,
    {
        assert(h[i as int] == history@[i as int]@);
        let e = &history[i];
        let parent_is_current = match &e.parent {
            Some(p) => str_eq(p.as_str(), current),
            None => false,
        };
        if parent_is_current && str_eq(e.branch.as_str(), branch) {
            proof {
                lemma_first_index(h, |e: EntryView| e.parent == Some(current@) && e.branch == branch@, i as int);
            }
            return Ok(e.commit.clone());
        }
        i = i + 1;
    }
    proof {
        lemma_first_index_none(h, |e: EntryView| e.parent == Some(current@) && e.branch == branch@);
    }
    Err(AetherError::OperationFailed(owned("Already at newest history state")))
}

/// No two entries of the history record the same commit.
pub open spec fn commits_unique(h: Seq<EntryView>) -> bool {
    forall|i: int, j: int| 0 <= i < h.len() && 0 <= j < h.len() && i != j ==> h[i].commit != h[j].commit
}

/// Undo takes back a redo: in a history where each commit is recorded once, undo
/// from the commit redo moves to comes back to where redo started.
pub proof fn law_undo_after_redo(current: Seq<char>, branch: Seq<char>, h: Seq<EntryView>)
    requires
        commits_unique(h),
        redo_spec(current, branch, h) is Ok,
    ensures
        ({
            let c = redo_spec(current, branch, h)->Ok_0;
            c.len() > 0 ==> undo_spec(c, h) == Ok::<Seq<char>, Seq<char>>(current)
        }),
{
    lemma_first_index_props(h, |e: EntryView| e.parent == Some(current) && e.branch == branch);
    let i = first_index(h, |e: EntryView| e.parent == Some(current) && e.branch == branch)->0;
    let c = h[i].commit;
    lemma_first_index_props(h, |e: EntryView| e.commit == c);
    assert forall|j: int| 0 <= j < i implies !(#[trigger] h[j].commit == c) by {
        assert(h[j].commit != h[i].commit);
    }
    lemma_first_index(h, |e: EntryView| e.commit == c, i);
}

/// Whether a successful command is recorded in the history as a new commit: all
/// but the moves in the history (undo, redo, branch, checkout), snapshots,
/// inspection, keyframe listing and the exports.
pub open spec fn records_spec(c: CommandV) -> bool {
    !(c is Undo || c is Redo || c is Snapshot || c is Inspect || c is KeyframeList || c is Export
        || c is ExportOtio || c is ExportEdl || c is Branch || c is Checkout)
}

/// Whether `cmd` is recorded in the history when it succeeds.
pub fn records_history(cmd: &Command) -> (r: bool)
    ensures
        r == records_spec(cmd@),
{
    match cmd {
        Command::Undo | Command::Redo | Command::Snapshot | Command::Inspect { .. } | Command::KeyframeList { .. }
        | Command::Export { .. } | Command::ExportOtio { .. } | Command::ExportEdl { .. } | Command::Branch { .. }
        | Command::Checkout { .. } => false,
        _ => true,
    }
}

// ---------------------------------------------------------------------------
// Generation commands
// ---------------------------------------------------------------------------

/// A generation to run: its kind, the request text, the requested model, the
/// input references and the JSON text of the command's options.
#[derive(Debug, Clone)]
pub struct GenerationCall {
    pub kind: GenerationKind,
    pub user_request: String,
    pub model: Option<String>,
    pub inputs: Vec<Ref>,
    pub options: String,
}

/// A generation call, as character sequences.
pub struct CallView {
    pub kind: GenerationKind,
    pub request: Seq<char>,
    pub model: Option<Seq<char>>,
    pub inputs: Seq<Ref>,
    pub options: Seq<char>,
}

/// The name given to what `{:?}` writes for an optional string
/// (`Some("...")` with the string escaped, or `None`).
pub uninterp spec fn option_debug(o: Option<Seq<char>>) -> Seq<char>;

/// The `Debug` form of an optional string (`format!("{:?}", o)`); std's escaping
/// rules are left to its name.
#[verifier::external_body]
pub(crate) fn debug_option(o: &Option<String>) -> (r: String)
    ensures
        r@ == option_debug(opt_view(*o)),
{
    format!("{:?}", o)
}

pub open spec fn msg_missing(what: Seq<char>, r: Ref) -> Seq<char> {
    what + " reference "@ + ref_text(r) + " not found"@
}

pub open spec fn msg_wrong_kind(r: Ref, what: Seq<char>) -> Seq<char> {
    "Reference "@ + ref_text(r) + " is not "@ + what + " asset"@
}

/// The refusal of a target that must be a registered asset of kind `kind`.
pub open spec fn target_check(reg: Map<Ref, Asset>, r: Ref, kind: AssetKind, what: Seq<char>, article: Seq<char>) -> Option<Seq<char>> {
    if !reg.contains_key(r) {
        Some(msg_missing(what, r))
    } else if reg[r].kind != kind {
        Some(msg_wrong_kind(r, article))
    } else {
        None
    }
}

/// The refusal of the first input that is not registered.
pub open spec fn inputs_check(reg: Map<Ref, Asset>, inputs: Seq<Ref>) -> Option<Seq<char>> {
    match first_index(inputs, |r: Ref| !reg.contains_key(r)) {
        Some(i) => Some(msg_missing("Input"@, inputs[i])),
        None => None,
    }
}

/// A call, or the refusal that comes first.
pub open spec fn call_or(check: Option<Seq<char>>, call: CallView) -> Option<Result<CallView, Seq<char>>> {
    match check {
        Some(m) => Some(Err(m)),
        None => Some(Ok(call)),
    }
}

/// The generation a command asks for, if it is a generation command: the kind
/// it maps to, its request text, its model and inputs; targets and inputs must be
/// registered, targets of the right kind.
pub open spec fn generation_spec(reg: Map<Ref, Asset>, c: CommandV) -> Option<Result<CallView, Seq<char>>> {
    match c {
        CommandV::GenerateStoryboardScratch { request, model, options } => Some(Ok(
            CallView { kind: GenerationKind::StoryboardScratch, request, model, inputs: seq![], options },
        )),
        CommandV::GenerateDialogue { request, model, options } => Some(Ok(
            CallView { kind: GenerationKind::Dialogue, request, model, inputs: seq![], options },
        )),
        CommandV::GenerateImage { request, model, inputs, options } => call_or(
            inputs_check(reg, inputs),
            CallView { kind: GenerationKind::Image, request, model, inputs, options },
        ),
        CommandV::EditImage { target, request, model, options } => call_or(
            target_check(reg, target, AssetKind::Image, "Image"@, "an image"@),
            CallView { kind: GenerationKind::ImageEdit, request, model, inputs: seq![target], options },
        ),
        CommandV::GenerateVoice { text, voice, model, options } => Some(Ok(
            CallView {
                kind: GenerationKind::Voice,
                request: "voice: "@ + option_debug(voice) + ", text: "@ + text,
                model,
                inputs: seq![],
                options,
            },
        )),
        CommandV::CloneVoice { sample, name, model, options } => call_or(
            target_check(reg, sample, AssetKind::Audio, "Audio"@, "an audio"@),
            CallView { kind: GenerationKind::VoiceClone, request: "name: "@ + option_debug(name), model, inputs: seq![sample], options },
        ),
        CommandV::GenerateSceneAudio { request, model, options } => Some(Ok(
            CallView { kind: GenerationKind::SceneAudio, request, model, inputs: seq![], options },
        )),
        CommandV::GenerateMusic { request, model, options } => Some(Ok(
            CallView { kind: GenerationKind::Music, request, model, inputs: seq![], options },
        )),
        CommandV::GenerateVideoFromText { request, model, options } => Some(Ok(
            CallView { kind: GenerationKind::VideoText, request, model, inputs: seq![], options },
        )),
        CommandV::GenerateVideoFromFrame { frame, request, model, options } => call_or(
            target_check(reg, frame, AssetKind::Image, "Image"@, "an image"@),
            CallView { kind: GenerationKind::VideoFrame, request, model, inputs: seq![frame], options },
        ),
        CommandV::GenerateVideoFromIngredients { inputs, request, model, options } => call_or(
            inputs_check(reg, inputs),
            CallView { kind: GenerationKind::VideoIngredients, request, model, inputs, options },
        ),
        CommandV::EditVideo { target, request, model, options } => call_or(
            target_check(reg, target, AssetKind::Video, "Video"@, "a video"@),
            CallView { kind: GenerationKind::VideoEdit, request, model, inputs: seq![target], options },
        ),
        _ => None,
    }
}

/// `r` is what `generation_spec` gives, a refusal being an invalid command.
pub open spec fn generation_outcome(r: Option<Result<GenerationCall, AetherError>>, expected: Option<Result<CallView, Seq<char>>>) -> bool {
    match expected {
        None => r is None,
        Some(Ok(c)) => r matches Some(Ok(x)) && x.kind == c.kind && x.user_request@ == c.request && opt_view(x.model) == c.model
            && x.inputs@ == c.inputs && x.options@ == c.options,
        Some(Err(m)) => r matches Some(Err(AetherError::InvalidCommand(x))) && x@ == m,
    }
}

fn check_target(registry: &RefRegistry, r: Ref, kind: AssetKind, what: &str, article: &str) -> (res: Option<String>)
    requires
        registry.wf(),
    ensures
        opt_view(res) == target_check(registry@, r, kind, what@, article@),
{
    match registry.resolve(&r) {
        Err(_) => {
            let mut m = owned(what);
            push_str(&mut m, " reference ");
            let t = r.to_string();
            push_str(&mut m, t.as_str());
            push_str(&mut m, " not found");
            Some(m)
        },
        Ok(asset) => {
            if asset.kind != kind {
                let mut m = owned("Reference ");
                let t = r.to_string();
                push_str(&mut m, t.as_str());
                push_str(&mut m, " is not ");
                push_str(&mut m, article);
                push_str(&mut m, " asset");
                Some(m)
            } else {
                None
            }
        },
    }
}

fn check_inputs(registry: &RefRegistry, inputs: &Vec<Ref>) -> (res: Option<String>)
    requires
        registry.wf(),
    ensures
        opt_view(res) == inputs_check(registry@, inputs@),
{
    let mut i: usize = 0;
    while i < inputs.len()
        invariant
            i <= inputs.len(),
            registry.wf(),
            forall|j: int| 0 <= j < i ==> registry@.contains_key(#[trigger] inputs@[j]),
        decreases inputs.len() - i,
    {
        let r = inputs[i];
        if registry.resolve(&r).is_err() {
            proof {
                lemma_first_index(inputs@, |r: Ref| !registry@.contains_key(r), i as int);
            }
            let mut m = owned("Input");
            push_str(&mut m, " reference ");
            let t = r.to_string();
            push_str(&mut m, t.as_str());
            push_str(&mut m, " not found");
            return Some(m);
        }
        i = i + 1;
    }
    proof {
        lemma_first_index_none(inputs@, |r: Ref| !registry@.contains_key(r));
    }
    None
}

fn copy_refs(v: &Vec<Ref>) -> (r: Vec<Ref>)
    ensures
        r@ == v@,
{
    let mut r: Vec<Ref> = Vec::new();
    let mut i: usize = 0;
    while i < v.len()
        invariant
            i <= v.len(),
            r@ == v@.subrange(0, i as int),
        decreases v.len() - i,
    {
        r.push(v[i]);
        i = i + 1;
    }
    assert(v@.subrange(0, i as int) =~= v@);
    r
}

fn one_ref(x: Ref) -> (r: Vec<Ref>)
    ensures
        r@ == seq![x],
{
    let mut r: Vec<Ref> = Vec::new();
    r.push(x);
    assert(r@ =~= seq![x]);
    r
}

fn plain(kind: GenerationKind, request: &String, model: &Option<String>, inputs: Vec<Ref>, options: &String) -> (r: GenerationCall)
    ensures
        r.kind == kind,
        r.user_request@ == request@,
        opt_view(r.model) == opt_view(*model),
        r.inputs@ == inputs@,
        r.options@ == options@,
{
    GenerationCall { kind, user_request: request.clone(), model: copy_opt(model), inputs, options: options.clone() }
}

fn checked(check: Option<String>, call: GenerationCall) -> (r: Option<Result<GenerationCall, AetherError>>)
    ensures
        match check {
            Some(m) => r matches Some(Err(AetherError::InvalidCommand(x))) && x@ == m@,
            None => r == Some(Ok::<GenerationCall, AetherError>(call)),
        },
{
    match check {
        Some(m) => Some(Err(AetherError::InvalidCommand(m))),
        None => Some(Ok(call)),
    }
}

/// The generation `cmd` asks for, given the assets of `registry`; `None` for a
/// command that is not a generation.
pub fn prepare_generation(registry: &RefRegistry, cmd: &Command) -> (r: Option<Result<GenerationCall, AetherError>>)
    requires
        registry.wf(),
    ensures
        generation_outcome(r, generation_spec(registry@, cmd@)),
{
    let empty: Vec<Ref> = Vec::new();
    assert(empty@ =~= Seq::<Ref>::empty());
    match cmd {
        Command::GenerateStoryboardScratch { request, model, options } => Some(Ok(plain(GenerationKind::StoryboardScratch, request, model, empty, options))),
        Command::GenerateDialogue { request, model, options } => Some(Ok(plain(GenerationKind::Dialogue, request, model, empty, options))),
        Command::GenerateImage { request, model, inputs, options } => {
            let c = check_inputs(registry, inputs);
            checked(c, plain(GenerationKind::Image, request, model, copy_refs(inputs), options))
        },
        Command::EditImage { target, request, model, options } => {
            let c = check_target(registry, *target, AssetKind::Image, "Image", "an image");
            checked(c, plain(GenerationKind::ImageEdit, request, model, one_ref(*target), options))
        },
        Command::GenerateVoice { text, voice, model, options } => {
            let mut req = owned("voice: ");
            let d = debug_option(voice);
            push_str(&mut req, d.as_str());
            push_str(&mut req, ", text: ");
            push_str(&mut req, text.as_str());
            Some(Ok(plain(GenerationKind::Voice, &req, model, empty, options)))
        },
        Command::CloneVoice { sample, name, model, options } => {
            let c = check_target(registry, *sample, AssetKind::Audio, "Audio", "an audio");
            let mut req = owned("name: ");
            let d = debug_option(name);
            push_str(&mut req, d.as_str());
            checked(c, plain(GenerationKind::VoiceClone, &req, model, one_ref(*sample), options))
        },
        Command::GenerateSceneAudio { request, model, options } => Some(Ok(plain(GenerationKind::SceneAudio, request, model, empty, options))),
        Command::GenerateMusic { request, model, options } => Some(Ok(plain(GenerationKind::Music, request, model, empty, options))),
        Command::GenerateVideoFromText { request, model, options } => Some(Ok(plain(GenerationKind::VideoText, request, model, empty, options))),
        Command::GenerateVideoFromFrame { frame, request, model, options } => {
            let c = check_target(registry, *frame, AssetKind::Image, "Image", "an image");
            checked(c, plain(GenerationKind::VideoFrame, request, model, one_ref(*frame), options))
        },
        Command::GenerateVideoFromIngredients { inputs, request, model, options } => {
            let c = check_inputs(registry, inputs);
            checked(c, plain(GenerationKind::VideoIngredients, request, model, copy_refs(inputs), options))
        },
        Command::EditVideo { target, request, model, options } => {
            let c = check_target(registry, *target, AssetKind::Video, "Video", "a video");
            checked(c, plain(GenerationKind::VideoEdit, request, model, one_ref(*target), options))
        },
        _ => None,
    }
}


// ---------------------------------------------------------------------------
// Branches and checkouts
// ---------------------------------------------------------------------------

/// What was loaded of a project's vaults: its links, the registered vaults and
/// the assets loaded for each link (`assets[i]` for the `i`-th link).
pub struct LoadedVaults {
    pub links: VaultLinks,
    pub vaults: Vec<Vault>,
    pub assets: Vec<Vec<VaultAsset>>,
}

/// The prompt context compiled from loaded vaults.
pub open spec fn compiled_context(l: LoadedVaults) -> PromptContextView {
    PromptContextView {
        project_summary: None,
        style_hints: Seq::empty(),
        negative_constraints: Seq::empty(),
        vaults: compile_spec(
            links_view(l.links.attached_vaults@),
            l.vaults@,
            l.assets@.map_values(|v: Vec<VaultAsset>| assets_view(v@)),
        ),
    }
}

/// The paths of the registered assets of `inputs`.
pub open spec fn input_paths(reg: Map<Ref, Asset>, inputs: Seq<Ref>) -> Seq<Seq<char>> {
    inputs.map_values(|r: Ref| reg[r].path@)
}

/// The options a generation request is sent with: `options` with the prompt
/// context compiled from the project's vaults when they could be loaded, and the
/// paths of the input assets when there are inputs; an input that is not
/// registered is refused.
pub fn request_options(
    options: GenerationOptions,
    registry: &RefRegistry,
    inputs: &Vec<Ref>,
    vaults: &VaultManager,
    loaded: &Option<LoadedVaults>,
) -> (r: Result<GenerationOptions, AetherError>)
    requires
        registry.wf(),
    ensures
        match first_missing(registry@, inputs@) {
            Some(k) => r == Err::<GenerationOptions, AetherError>(AetherError::RefNotFound(inputs@[k])),
            None => r matches Ok(o) && o@ == (OptionsView {
                vault_context: match loaded {
                    Some(l) => Some(compiled_context(*l)),
                    None => options@.vault_context,
                },
                input_asset_paths: if inputs@.len() == 0 {
                    options@.input_asset_paths
                } else {
                    input_paths(registry@, inputs@)
                },
                ..options@
            }),
        },
{
    let ghost original = options@;
    let mut options = options;
    match loaded {
        Some(l) => {
            let ctx = vaults.compile_prompt_context(&l.links, &l.vaults, &l.assets);
            proof {
                assert(string_views(ctx.style_hints@) =~= Seq::<Seq<char>>::empty());
                assert(string_views(ctx.negative_constraints@) =~= Seq::<Seq<char>>::empty());
                assert(ctx@ == compiled_context(*l));
            }
            options.vault_context = Some(ctx);
        },
        None => {},
    }
    let ghost with_vaults = options@;
    assert(with_vaults == (OptionsView {
        vault_context: match loaded {
            Some(l) => Some(compiled_context(*l)),
            None => original.vault_context,
        },
        ..original
    }));
    let ghost reg = registry@;
    let ghost pred = |x: Ref| !reg.contains_key(x);
    let mut paths: Vec<String> = Vec::new();
    let mut i: usize = 0;
    while i < inputs.len()
        invariant
            i <= inputs.len(),
            registry.wf(),
            reg == registry@,
            options@ == with_vaults,
            pred == (|x: Ref| !reg.contains_key(x)),
            forall|j: int| 0 <= j < i ==> reg.contains_key(#[trigger] inputs@[j]),
            string_views(paths@) == input_paths(reg, inputs@.take(i as int)),
        decreases inputs.len() - i,
    {
        let a = match registry.resolve(&inputs[i]) {
            Ok(a) => a,
            Err(e) => {
                proof {
                    assert(pred(inputs@[i as int]));
                    assert forall|j: int| 0 <= j < i implies !#[trigger] pred(inputs@[j]) by {}
                    lemma_first_index(inputs@, pred, i as int);
                }
                return Err(e);
            },
        };
        let ghost before = paths@;
        paths.push(a.path);
        proof {
            assert(string_views(paths@) =~= string_views(before).push(reg[inputs@[i as int]].path@));
            assert(input_paths(reg, inputs@.take(i + 1)) =~= input_paths(reg, inputs@.take(i as int)).push(reg[inputs@[i as int]].path@));
        }
        i = i + 1;
    }
    proof {
        assert forall|j: int| 0 <= j < inputs@.len() implies !#[trigger] pred(inputs@[j]) by {}
        lemma_first_index_none(inputs@, pred);
        assert(inputs@.take(i as int) =~= inputs@);
    }
    if paths.len() > 0 {
        options.input_asset_paths = paths;
    }
    Ok(options)
}

/// Creating branch `name`: refused when a branch of that name has a head already.
pub fn branch_decision(name: &str, head_exists: bool) -> (r: Result<String, AetherError>)
    ensures
        head_exists ==> (r matches Err(x) && x@ == ErrorV::OperationFailed("Branch '"@ + name@ + "' already exists"@)),
        !head_exists ==> (r matches Ok(m) && m@ == "Branch '"@ + name@ + "' created successfully"@),
{
    let mut m = owned("Branch '");
    push_str(&mut m, name);
    if head_exists {
        push_str(&mut m, "' already exists");
        Err(AetherError::OperationFailed(m))
    } else {
        push_str(&mut m, "' created successfully");
        Ok(m)
    }
}

/// Where `checkout name` goes: the head of branch `name` when it has one (the
/// branch becoming current), else the commit `name` when a checkpoint of it exists
/// (the session becoming detached); the result is the branch and the commit.
pub fn checkout_target(name: &str, head: &Option<String>, checkpoint_exists: bool) -> (r: Result<(String, String), AetherError>)
    ensures
        match head {
            Some(h) => r matches Ok(t) && t.0@ == name@ && t.1@ == h@,
            None => if checkpoint_exists {
                r matches Ok(t) && t.0@ == "detached"@ && t.1@ == name@
            } else {
                r matches Err(x) && x@ == ErrorV::OperationFailed("Branch or commit '"@ + name@ + "' not found"@)
            },
        },
{
    match head {
        Some(h) => Ok((owned(name), h.clone())),
        None => {
            if checkpoint_exists {
                Ok((owned("detached"), owned(name)))
            } else {
                let mut m = owned("Branch or commit '");
                push_str(&mut m, name);
                push_str(&mut m, "' not found");
                Err(AetherError::OperationFailed(m))
            }
        },
    }
}

// ---------------------------------------------------------------------------
// History depth
// ---------------------------------------------------------------------------

/// The number of commits from `c` back through first-recorded parents, taking at
/// most `fuel` steps (`None` when they do not suffice): the walk stops at the empty
/// commit or at a commit the history does not record.
pub open spec fn ancestry(c: Seq<char>, h: Seq<EntryView>, fuel: nat) -> Option<nat>
    decreases fuel,
{
    if c.len() == 0 {
        Some(0)
    } else {
        match first_index(h, |e: EntryView| e.commit == c) {
            None => Some(0),
            Some(i) => if fuel == 0 {
                None
            } else {
                match ancestry(
                    match h[i].parent {
                        Some(p) => p,
                        None => Seq::empty(),
                    },
                    h,
                    (fuel - 1) as nat,
                ) {
                    Some(n) => Some(n + 1),
                    None => None,
                }
            },
        }
    }
}

/// The position of the first entry recording commit `c`.
pub(crate) fn find_commit(history: &Vec<HistoryEntry>, c: &str) -> (r: Option<usize>)
    ensures
        match r {
            Some(i) => i < history@.len() && first_index(history_view(history@), |e: EntryView| e.commit == c@) == Some(i as int),
            None => first_index(history_view(history@), |e: EntryView| e.commit == c@) is None,
        },
{
    let ghost h = history_view(history@);
    let mut i: usize = 0;
    while i < history.len()
        invariant
            h == history_view(history@),
            i <= history.len(),
            forall|j: int| 0 <= j < i ==> (#[trigger] h[j]).commit != c@,
        decreases history.len() - i,
    {
        assert(h[i as int] == history@[i as int]@);
        if str_eq(history[i].commit.as_str(), c) {
            proof {
                lemma_first_index(h, |e: EntryView| e.commit == c@, i as int);
            }
            return Some(i);
        }
        i = i + 1;
    }
    proof {
        lemma_first_index_none(h, |e: EntryView| e.commit == c@);
    }
    None
}

/// The parent a history entry records, the empty commit when it has none.
pub open spec fn parent_of(e: EntryView) -> Seq<char> {
    match e.parent {
        Some(p) => p,
        None => Seq::empty(),
    }
}

proof fn lemma_ancestry_step(c: Seq<char>, h: Seq<EntryView>, fuel: nat, i: int)
    requires
        c.len() > 0,
        first_index(h, |e: EntryView| e.commit == c) == Some(i),
        ancestry(c, h, fuel) is Some,
    ensures
        fuel > 0,
        ancestry(parent_of(h[i]), h, (fuel - 1) as nat) is Some,
        ancestry(c, h, fuel)->Some_0 == ancestry(parent_of(h[i]), h, (fuel - 1) as nat)->Some_0 + 1,
{
}

proof fn lemma_ancestry_stop(c: Seq<char>, h: Seq<EntryView>, fuel: nat)
    requires
        c.len() == 0 || first_index(h, |e: EntryView| e.commit == c) is None,
    ensures
        ancestry(c, h, fuel) == Some(0nat),
{
}

/// The length of the history behind commit `current`: the commits met walking back
/// from it through the parents the history records. The walk ends for the histories
/// the session writes; `requires` leaves out those where it would not end.
pub fn history_depth(current: &str, history: &Vec<HistoryEntry>) -> (n: usize)
    requires
        history@.len() < usize::MAX,
        ancestry(current@, history_view(history@), (history@.len() + 1) as nat) is Some,
    ensures
        n == ancestry(current@, history_view(history@), (history@.len() + 1) as nat)->Some_0,
{
    let ghost h = history_view(history@);
    let ghost total = ancestry(current@, h, (history@.len() + 1) as nat)->Some_0;
    let mut cur = owned(current);
    let mut fuel: usize = history.len() + 1;
    let mut count: usize = 0;
    while cur.unicode_len() > 0
        invariant
            h == history_view(history@),
            ancestry(cur@, h, fuel as nat) is Some,
            count + ancestry(cur@, h, fuel as nat)->Some_0 == total,
            count + fuel == history@.len() + 1,
            history@.len() < usize::MAX,
        ensures
            count == total,
        decreases fuel,
    {
        match find_commit(history, cur.as_str()) {
            None => {
                proof {
                    lemma_ancestry_stop(cur@, h, fuel as nat);
                }
                break;
            },
            Some(i) => {
                assert(h[i as int] == history@[i as int]@);
                proof {
                    lemma_ancestry_step(cur@, h, fuel as nat, i as int);
                }
                let next = match &history[i].parent {
                    Some(p) => p.clone(),
                    None => String::new(),
                };
                assert(next@ == parent_of(h[i as int]));
                count = count + 1;
                fuel = fuel - 1;
                cur = next;
            },
        }
    }
    proof {
        if cur@.len() == 0 {
            lemma_ancestry_stop(cur@, h, fuel as nat);
        }
    }
    count
}

/// What a client sees of a session: its settings, its registered assets, the
/// number of commits behind the current one, its graph and its timeline.
#[derive(Debug)]
pub struct Snapshot {
    pub settings: crate::edit::ProjectSettings,
    pub assets: Vec<Asset>,
    pub history_len: usize,
    pub history_cursor: usize,
    pub graph: crate::graph::CompositionGraph,
    pub timeline: crate::timeline::Timeline,
}

/// The answer to a command: whether it succeeded, the reference it produced, its
/// message and the session's snapshot after it.
#[derive(Debug)]
pub struct CommandResult {
    pub success: bool,
    pub affected_ref: Option<Ref>,
    pub message: String,
    pub snapshot: Option<Snapshot>,
}

/// The snapshot of a session at commit `commit` of `history`: every registered
/// asset once, and the commits met walking back from `commit` through their
/// parents as both the history's length and its cursor.
pub fn session_snapshot(
    settings: crate::edit::ProjectSettings,
    registry: &RefRegistry,
    commit: &str,
    history: &Vec<HistoryEntry>,
    graph: crate::graph::CompositionGraph,
    timeline: crate::timeline::Timeline,
) -> (s: Snapshot)
    requires
        registry.wf(),
        history@.len() < usize::MAX,
        ancestry(commit@, history_view(history@), (history@.len() + 1) as nat) is Some,
    ensures
        s.settings == settings,
        s.graph == graph,
        s.timeline == timeline,
        s.history_len == ancestry(commit@, history_view(history@), (history@.len() + 1) as nat)->Some_0,
        s.history_cursor == s.history_len,
        s.assets@.len() == registry@.len(),
        exists|keys: Seq<Ref>| #![trigger keys.len()]
            keys.len() == s.assets@.len() && keys.no_duplicates() && keys.to_set() == registry@.dom()
            && forall|i: int| 0 <= i < keys.len() ==> #[trigger] registry@[keys[i]] == s.assets@[i],
{
    let assets = registry.list_assets();
    let depth = history_depth(commit, history);
    Snapshot { settings, assets, history_len: depth, history_cursor: depth, graph, timeline }
}

// ---------------------------------------------------------------------------
// Results of generations
// ---------------------------------------------------------------------------

/// The name of a job state, as its `Debug` form writes it.
pub open spec fn status_name(s: GenerationStatus) -> Seq<char> {
    match s {
        GenerationStatus::Queued => "Queued"@,
        GenerationStatus::Submitted => "Submitted"@,
        GenerationStatus::Running => "Running"@,
        GenerationStatus::AwaitingClarification => "AwaitingClarification"@,
        GenerationStatus::Downloading => "Downloading"@,
        GenerationStatus::Ready => "Ready"@,
        GenerationStatus::Failed => "Failed"@,
        GenerationStatus::Cancelled => "Cancelled"@,
    }
}

fn status_text(s: GenerationStatus) -> (r: &'static str)
    ensures
        r@ == status_name(s),
{
    match s {
        GenerationStatus::Queued => "Queued",
        GenerationStatus::Submitted => "Submitted",
        GenerationStatus::Running => "Running",
        GenerationStatus::AwaitingClarification => "AwaitingClarification",
        GenerationStatus::Downloading => "Downloading",
        GenerationStatus::Ready => "Ready",
        GenerationStatus::Failed => "Failed",
        GenerationStatus::Cancelled => "Cancelled",
    }
}

/// `t` ends `s`.
pub open spec fn ends_with(s: Seq<char>, t: Seq<char>) -> bool {
    t.len() <= s.len() && s.skip(s.len() - t.len()) == t
}

fn str_ends_with(s: &str, t: &str) -> (r: bool)
    ensures
        r == ends_with(s@, t@),
{
    let sv = chars_of(s);
    let tv = chars_of(t);
    if tv.len() > sv.len() {
        return false;
    }
    let off = sv.len() - tv.len();
    let mut k: usize = 0;
    while k < tv.len()
        invariant
            sv@ == s@,
            tv@ == t@,
            off == sv.len() - tv.len(),
            k <= tv.len(),
            forall|m: int| 0 <= m < k ==> sv@[off + m] == tv@[m],
        decreases tv.len() - k,
    {
        if sv[off + k] != tv[k] {
            assert(s@.skip(off as int)[k as int] != t@[k as int]);
            return false;
        }
        k = k + 1;
    }
    assert(s@.skip(off as int) =~= t@);
    true
}

/// The kind of asset a generated file becomes: none for JSON and mock files and for
/// storyboards and dialogues; images, audio (music included) and videos otherwise.
pub open spec fn artifact_kind_spec(path: Seq<char>, kind: GeneratedArtifactKind) -> Option<AssetKind> {
    if ends_with(path, ".json"@) || has_substring(path, ".mock-"@) {
        None
    } else {
        match kind {
            GeneratedArtifactKind::Image => Some(AssetKind::Image),
            GeneratedArtifactKind::Audio | GeneratedArtifactKind::Music => Some(AssetKind::Audio),
            GeneratedArtifactKind::Video => Some(AssetKind::Video),
            _ => None,
        }
    }
}

/// The kind of asset a generated file becomes, if it is registered.
pub fn artifact_asset_kind(art: &GenerationArtifact) -> (k: Option<AssetKind>)
    ensures
        k == artifact_kind_spec(art.path@, art.kind),
{
    let p = art.path.as_str();
    if str_ends_with(p, ".json") || str_contains(p, ".mock-") {
        return None;
    }
    match art.kind {
        GeneratedArtifactKind::Image => Some(AssetKind::Image),
        GeneratedArtifactKind::Audio | GeneratedArtifactKind::Music => Some(AssetKind::Audio),
        GeneratedArtifactKind::Video => Some(AssetKind::Video),
        _ => None,
    }
}

/// The reference kind of an asset kind.
pub open spec fn ref_kind_of(k: AssetKind) -> RefKind {
    match k {
        AssetKind::Video => RefKind::Video,
        AssetKind::Audio => RefKind::Audio,
        AssetKind::Image => RefKind::Image,
        AssetKind::Animation => RefKind::Animation,
    }
}

/// The message that ends a generation: which job, in which state, with the model
/// used (`{:?}` of its id) when nothing was registered, or the registered assets;
/// for a job awaiting clarification, that it waits. `answers` are the
/// `(field, question)` pairs the prompter asked, listed after a heading.
pub open spec fn generation_message(
    job: Ref,
    status: GenerationStatus,
    model_id: Option<Seq<char>>,
    registered: Seq<Ref>,
    answers: Seq<(Seq<char>, Seq<char>)>,
) -> Seq<char> {
    let head = if status == GenerationStatus::AwaitingClarification {
        "Generation "@ + ref_text(job) + " awaiting prompter clarification (model "@ + option_debug(model_id) + ")"@
    } else if registered.len() == 0 {
        "Generation "@ + ref_text(job) + " completed with status "@ + status_name(status) + " using model "@
            + option_debug(model_id)
    } else {
        "Generation "@ + ref_text(job) + " completed with status "@ + status_name(status) + ". Registered assets: "@
            + joined_refs(registered)
    };
    if answers.len() == 0 {
        head
    } else {
        head + "\nPrompter (Maître d'Hôtel) needs answers:"@ + answer_lines(answers)
    }
}

/// References written one after the other, separated by `, `.
pub open spec fn joined_refs(rs: Seq<Ref>) -> Seq<char>
    decreases rs.len(),
{
    if rs.len() == 0 {
        Seq::empty()
    } else if rs.len() == 1 {
        ref_text(rs[0])
    } else {
        joined_refs(rs.drop_last()) + ", "@ + ref_text(rs.last())
    }
}

/// One line `\n- [field] question` per pair.
pub open spec fn answer_lines(a: Seq<(Seq<char>, Seq<char>)>) -> Seq<char>
    decreases a.len(),
{
    if a.len() == 0 {
        Seq::empty()
    } else {
        answer_lines(a.drop_last()) + "\n- ["@ + a.last().0 + "] "@ + a.last().1
    }
}

/// Builds the message that ends a generation.
pub fn generation_report(
    job: Ref,
    status: GenerationStatus,
    model_id: &Option<String>,
    registered: &Vec<Ref>,
    answers: &Vec<(String, String)>,
) -> (m: String)
    ensures
        m@ == generation_message(job, status, opt_view(*model_id), registered@, answers@.map_values(|p: (String, String)| (p.0@, p.1@))),
{
    let job_text = job.to_string();
    let mut m = owned("Generation ");
    push_str(&mut m, job_text.as_str());
    if status == GenerationStatus::AwaitingClarification {
        push_str(&mut m, " awaiting prompter clarification (model ");
        let d = debug_option(model_id);
        push_str(&mut m, d.as_str());
        push_str(&mut m, ")");
    } else if registered.len() == 0 {
        push_str(&mut m, " completed with status ");
        push_str(&mut m, status_text(status));
        push_str(&mut m, " using model ");
        let d = debug_option(model_id);
        push_str(&mut m, d.as_str());
    } else {
        push_str(&mut m, " completed with status ");
        push_str(&mut m, status_text(status));
        push_str(&mut m, ". Registered assets: ");
        let mut i: usize = 0;
        let ghost start = m@;
        while i < registered.len()
            invariant
                i <= registered.len(),
                m@ == start + joined_refs(registered@.take(i as int)),
            decreases registered.len() - i,
        {
            let ghost before = m@;
            if i > 0 {
                push_str(&mut m, ", ");
            }
            let t = registered[i].to_string();
            push_str(&mut m, t.as_str());
            proof {
                let s = registered@.take(i + 1);
                assert(s.drop_last() =~= registered@.take(i as int));
                assert(s.last() == registered@[i as int]);
                if i == 0 {
                    assert(registered@.take(0) =~= Seq::<Ref>::empty());
                }
            }
            i = i + 1;
        }
        assert(registered@.take(i as int) =~= registered@);
    }
    let ghost a = answers@.map_values(|p: (String, String)| (p.0@, p.1@));
    if answers.len() > 0 {
        push_str(&mut m, "\nPrompter (Maître d'Hôtel) needs answers:");
        let ghost start = m@;
        let mut i: usize = 0;
        while i < answers.len()
            invariant
                i <= answers.len(),
                a == answers@.map_values(|p: (String, String)| (p.0@, p.1@)),
                m@ == start + answer_lines(a.take(i as int)),
            decreases answers.len() - i,
        {
            push_str(&mut m, "\n- [");
            push_str(&mut m, answers[i].0.as_str());
            push_str(&mut m, "] ");
            push_str(&mut m, answers[i].1.as_str());
            proof {
                let s = a.take(i + 1);
                assert(s.drop_last() =~= a.take(i as int));
                assert(s.last() == a[i as int]);
            }
            i = i + 1;
        }
        assert(a.take(i as int) =~= a);
    }
    m
}


/// The kind of asset a generated file becomes, if it is registered.
pub open spec fn registrable(a: GenerationArtifact) -> Option<AssetKind> {
    artifact_kind_spec(a.path@, a.kind)
}

/// How many of `arts` become assets with references of kind `k`.
pub open spec fn reg_count(arts: Seq<GenerationArtifact>, k: RefKind) -> nat
    decreases arts.len(),
{
    if arts.len() == 0 {
        0
    } else {
        reg_count(arts.drop_last(), k) + if registrable(arts.last()) matches Some(ak) && ref_kind_of(ak) == k {
            1nat
        } else {
            0nat
        }
    }
}

/// The reference kind of the asset that registrable artifact `a` becomes.
pub open spec fn artifact_ref_kind(a: GenerationArtifact) -> RefKind {
    ref_kind_of(registrable(a)->0)
}

/// The reference allocated for the registrable artifact `arts[j]`: the next one
/// of its kind after those of the registrable artifacts before it (ids wrap at
/// `u32::MAX` as the allocator's counter does).
pub open spec fn planned_ref(reg: RefRegistry, arts: Seq<GenerationArtifact>, j: int) -> Ref {
    let k = artifact_ref_kind(arts[j]);
    Ref { kind: k, id: ((reg.counter(k) + reg_count(arts.take(j), k)) % 0x1_0000_0000) as u32 }
}

/// The asset a generated file becomes under reference `r`, with content hash `h`.
pub open spec fn generated_asset(a: GenerationArtifact, h: String, r: Ref) -> Asset {
    Asset { r, kind: registrable(a)->0, path: a.path, hash: h, metadata: a.metadata }
}

/// The references registered for the files of `arts`, in order.
pub open spec fn planned_refs(reg: RefRegistry, arts: Seq<GenerationArtifact>) -> Seq<Ref>
    decreases arts.len(),
{
    if arts.len() == 0 {
        Seq::empty()
    } else {
        planned_refs(reg, arts.drop_last()) + if registrable(arts.last()) is Some {
            seq![planned_ref(reg, arts, arts.len() - 1)]
        } else {
            Seq::empty()
        }
    }
}

/// The registered assets after registering the files of `arts`.
pub open spec fn planned_assets(reg: RefRegistry, arts: Seq<GenerationArtifact>, hashes: Seq<String>) -> Map<Ref, Asset>
    decreases arts.len(),
{
    if arts.len() == 0 {
        reg@
    } else {
        let m = planned_assets(reg, arts.drop_last(), hashes);
        let j = arts.len() - 1;
        if registrable(arts.last()) is Some {
            m.insert(planned_ref(reg, arts, j), generated_asset(arts.last(), hashes[j], planned_ref(reg, arts, j)))
        } else {
            m
        }
    }
}

/// Registering the file `arts[j]` fails: its reference is taken already.
pub open spec fn conflict_at(reg: RefRegistry, arts: Seq<GenerationArtifact>, hashes: Seq<String>, j: int) -> bool {
    registrable(arts[j]) is Some && planned_assets(reg, arts.take(j), hashes).contains_key(planned_ref(reg, arts, j))
}

proof fn lemma_take_drop_last<A>(s: Seq<A>, i: int)
    requires
        0 <= i < s.len(),
    ensures
        s.take(i + 1).drop_last() == s.take(i),
        s.take(i + 1).last() == s[i],
{
    assert(s.take(i + 1).drop_last() =~= s.take(i));
}

/// Registers the generated files that become assets, in order: each gets the next
/// reference of its kind and an asset with its path, its content hash
/// (`hashes[i]` for `artifacts[i]`) and its metadata. Stops at the first whose
/// reference is already registered. Returns the registered references.
pub fn register_artifacts(registry: &mut RefRegistry, artifacts: &Vec<GenerationArtifact>, hashes: &Vec<String>) -> (r: Result<Vec<Ref>, AetherError>)
    requires
        old(registry).wf(),
        hashes.len() == artifacts.len(),
    ensures
        final(registry).wf(),
        r is Ok <==> (forall|j: int| 0 <= j < artifacts@.len() ==> !conflict_at(*old(registry), artifacts@, hashes@, j)),
        r matches Ok(refs) ==> refs@ == planned_refs(*old(registry), artifacts@) && final(registry)@ == planned_assets(
            *old(registry),
            artifacts@,
            hashes@,
        ) && forall|k: RefKind| #[trigger] final(registry).counter(k) == (old(registry).counter(k) + reg_count(artifacts@, k))
            % 0x1_0000_0000,
        r is Err ==> exists|j: int| {
            &&& 0 <= j < artifacts@.len()
            &&& conflict_at(*old(registry), artifacts@, hashes@, j)
            &&& forall|i: int| 0 <= i < j ==> !conflict_at(*old(registry), artifacts@, hashes@, i)
            &&& r == Err::<Vec<Ref>, AetherError>(AetherError::RefAlreadyExists(planned_ref(*old(registry), artifacts@, j)))
            &&& final(registry)@ == planned_assets(*old(registry), artifacts@.take(j), hashes@)
            &&& forall|k: RefKind| #[trigger] final(registry).counter(k) == (old(registry).counter(k) + reg_count(
                artifacts@.take(j + 1),
                k,
            )) % 0x1_0000_0000
        },
{
    let ghost r0 = *registry;
    let ghost arts = artifacts@;
    let mut refs: Vec<Ref> = Vec::new();
    let mut i: usize = 0;
    while i < artifacts.len()
        invariant
            registry.wf(),
            r0 == *old(registry),
            arts == artifacts@,
            hashes.len() == artifacts.len(),
            i <= artifacts.len(),
            registry@ == planned_assets(r0, arts.take(i as int), hashes@),
            refs@ == planned_refs(r0, arts.take(i as int)),
            forall|k: RefKind| #[trigger] registry.counter(k) == (r0.counter(k) + reg_count(arts.take(i as int), k)) % 0x1_0000_0000,
            forall|j: int| 0 <= j < i ==> !conflict_at(r0, arts, hashes@, j),
        decreases artifacts.len() - i,
    {
        let art = &artifacts[i];
        proof {
            lemma_take_drop_last(arts, i as int);
            assert(arts.take(i + 1).take(i as int) =~= arts.take(i as int));
        }
        match artifact_asset_kind(art) {
            None => {
                proof {
                    assert forall|k: RefKind| reg_count(arts.take(i + 1), k) == reg_count(arts.take(i as int), k) by {}
                }
            },
            Some(ak) => {
                let rk = match ak {
                    AssetKind::Video => RefKind::Video,
                    AssetKind::Audio => RefKind::Audio,
                    AssetKind::Image => RefKind::Image,
                    AssetKind::Animation => RefKind::Animation,
                };
                let ghost c = registry.counter(rk);
                let r = registry.allocate(rk);
                proof {
                    assert(r == planned_ref(r0, arts, i as int));
                    assert(reg_count(arts.take(i + 1), rk) == reg_count(arts.take(i as int), rk) + 1);
                    assert forall|k: RefKind| k != rk implies reg_count(arts.take(i + 1), k) == reg_count(arts.take(i as int), k) by {}
                    let n = r0.counter(rk) + reg_count(arts.take(i as int), rk);
                    assert(crate::registry::next_counter(c) == (n + 1) % 0x1_0000_0000) by {
                        assert(c == n % 0x1_0000_0000);
                        if n % 0x1_0000_0000 == 0xffff_ffff {
                            assert((n + 1) % 0x1_0000_0000 == 0) by (nonlinear_arith)
                                requires n % 0x1_0000_0000 == 0xffff_ffff, n >= 0;
                        } else {
                            assert((n + 1) % 0x1_0000_0000 == n % 0x1_0000_0000 + 1) by (nonlinear_arith)
                                requires n % 0x1_0000_0000 < 0xffff_ffff, n >= 0;
                        }
                    }
                }
                let asset = Asset { r, kind: ak, path: art.path.clone(), hash: hashes[i].clone(), metadata: art.metadata.clone() };
                assert(asset == generated_asset(arts[i as int], hashes@[i as int], r));
                match registry.register(r, asset) {
                    Ok(()) => {
                        refs.push(r);
                    },
                    Err(e) => {
                        proof {
                            assert(conflict_at(r0, arts, hashes@, i as int));
                        }
                        return Err(e);
                    },
                }
            },
        }
        i = i + 1;
    }
    proof {
        assert(arts.take(i as int) =~= arts);
    }
    Ok(refs)
}

// ---------------------------------------------------------------------------
// Commands as transactions
// ---------------------------------------------------------------------------

/// The in-memory state of a session that a command may change: the reference
/// registry, the project settings, the composition graph, the timeline, and the
/// current branch and commit.
pub struct SessionState {
    pub registry: RefRegistry,
    pub settings: ProjectSettings,
    pub graph: CompositionGraph,
    pub timeline: Timeline,
    pub branch: String,
    pub commit: String,
}

/// What a session state holds: the registered assets and the reference counters
/// (video, audio, image, animation, generated), the settings (frame rate bits,
/// width, height, colorspace), the graph's nodes, connections and output, the
/// tracks, and the branch and commit.
#[verifier::ext_equal]
pub struct SessionView {
    pub assets: Map<Ref, Asset>,
    pub counters: Seq<u32>,
    pub settings: (u32, u32, u32, Seq<char>),
    pub nodes: Map<NodeId, Node>,
    pub edges: Seq<Connection>,
    pub output: Option<NodeId>,
    pub tracks: Seq<TrackV>,
    pub branch: Seq<char>,
    pub commit: Seq<char>,
}

/// The counters of a registry, one per kind of reference.
pub open spec fn counters_of(r: RefRegistry) -> Seq<u32> {
    seq![
        r.counter(RefKind::Video),
        r.counter(RefKind::Audio),
        r.counter(RefKind::Image),
        r.counter(RefKind::Animation),
        r.counter(RefKind::Generated),
    ]
}

impl View for SessionState {
    type V = SessionView;

    open spec fn view(&self) -> SessionView {
        SessionView {
            assets: self.registry@,
            counters: counters_of(self.registry),
            settings: (self.settings.fps_bits, self.settings.width, self.settings.height, self.settings.colorspace@),
            nodes: self.graph@,
            edges: self.graph.edges(),
            output: self.graph.output(),
            tracks: self.timeline@,
            branch: self.branch@,
            commit: self.commit@,
        }
    }
}

impl SessionState {
    /// A copy of the state.
    pub fn duplicate(&self) -> (c: Self)
        requires
            self.registry.wf(),
        ensures
            c.registry.wf(),
            c@ == self@,
            c.graph.wf() == self.graph.wf(),
    {
        SessionState {
            registry: self.registry.duplicate(),
            settings: self.settings.duplicate(),
            graph: self.graph.duplicate(),
            timeline: self.timeline.duplicate(),
            branch: self.branch.clone(),
            commit: self.commit.clone(),
        }
    }
}

/// A command under way: the session state as it was when the command began.
pub struct CommandTxn {
    saved: SessionState,
}

impl CommandTxn {
    /// The state saved when the command began.
    pub closed spec fn saved_view(&self) -> SessionView {
        self.saved@
    }

    /// The saved state can be restored: its registry is well formed.
    pub closed spec fn wf(&self) -> bool {
        self.saved.registry.wf()
    }
}

/// Begins command `cmd`: saves the session state, then decides the media
/// operation on the registry as `plan_edit` does (a reference may be allocated);
/// the rest of the state is left for the caller to change as the operation says.
pub fn begin_command(state: &mut SessionState, cmd: &Command, path_exists: bool) -> (r: (CommandTxn, Option<Result<EditStep, AetherError>>))
    requires
        old(state).registry.wf(),
    ensures
        r.0.wf(),
        r.0.saved_view() == old(state)@,
        final(state).registry.wf(),
        final(state).registry@ == old(state).registry@,
        step_outcome(r.1, edit_spec(old(state).registry, cmd@, path_exists)),
        counters_after(old(state).registry, final(state).registry, allocation(old(state).registry, cmd@, path_exists)),
        final(state).settings == old(state).settings,
        final(state).graph == old(state).graph,
        final(state).timeline == old(state).timeline,
        final(state).branch == old(state).branch,
        final(state).commit == old(state).commit,
{
    let saved = state.duplicate();
    let step = plan_edit(&mut state.registry, cmd, path_exists);
    (CommandTxn { saved }, step)
}

/// Ends the command begun with `txn`. When its work failed (`outcome` is an error)
/// every part of the session state goes back to what it was when the command
/// began, references allocated since given back, and the error is returned; when
/// it succeeded the state is kept, with the commit made for it, if any, as the
/// current commit.
pub fn end_command(state: &mut SessionState, txn: CommandTxn, outcome: Result<Option<String>, AetherError>) -> (r: Result<(), AetherError>)
    requires
        txn.wf(),
    ensures
        match outcome {
            Err(e) => r == Err::<(), AetherError>(e) && final(state)@ == txn.saved_view() && final(state).registry.wf(),
            Ok(c) => r is Ok && final(state)@ == (SessionView {
                commit: match c {
                    Some(h) => h@,
                    None => old(state)@.commit,
                },
                ..old(state)@
            }) && final(state).registry == old(state).registry,
        },
{
    match outcome {
        Err(e) => {
            *state = txn.saved;
            Err(e)
        },
        Ok(Some(h)) => {
            state.commit = h;
            Ok(())
        },
        Ok(None) => Ok(()),
    }
}

} // verus!
