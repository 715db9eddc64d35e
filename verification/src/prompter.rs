//! The prompter agent's decisions: how each answer of the language model moves the
//! conversation on (messages shown to the user, another turn, the final prompt, or
//! a failure), which tool call finalizes the prompt, where a model's guide lives and
//! what the system and user messages say. The model calls, the console and the guide
//! files are the caller's.

use vstd::prelude::*;
use crate::dsl::opt_view;
use crate::generate::{kind_name, GenerationKind};
use crate::agents::{agent_index, prompter_llm_enabled, AgentsConfigFile, PrompterCall};
use crate::dsl::string_views;
use crate::job::opt_context_view;
use crate::prompt::{join, join_strings, vaults_of, PromptMakerContext, RuleBasedPromptMaker};
use crate::refs::{AetherError, ErrorV};
use crate::vault::{contexts_view, VaultContextView, VaultPromptContext};
use crate::text::{
    chars_of, decimal, first_index, is_white_space, join_path, keys_distinct, lemma_table_index, lemma_table_push,
    lemma_table_replace, lemma_first_index, owned, path_join, push_char, push_str, str_eq, table, text_pairs, u64_decimal,
};

verus! {

// ---------------------------------------------------------------------------
// Byte lengths
// ---------------------------------------------------------------------------

/// The number of bytes of a character in UTF-8.
pub open spec fn char_utf8_len(c: char) -> nat {
    let n = c as u32;
    if n < 0x80 {
        1
    } else if n < 0x800 {
        2
    } else if n < 0x10000 {
        3
    } else {
        4
    }
}

/// The number of bytes of a text in UTF-8 (`str::len`).
pub open spec fn utf8_len(s: Seq<char>) -> nat
    decreases s.len(),
{
    if s.len() == 0 {
        0
    } else {
        utf8_len(s.drop_last()) + char_utf8_len(s.last())
    }
}

/// `s` can be cut after `max` bytes: it is at most that long, or `max` falls
/// between two characters.
pub open spec fn cuttable(s: Seq<char>, max: nat) -> bool {
    utf8_len(s) <= max || exists|k: int| 0 <= k <= s.len() && utf8_len(#[trigger] s.take(k)) == max
}

/// The first `max` bytes of `s` followed by `…`, or `s` when it is not longer.
pub open spec fn truncated(s: Seq<char>, max: nat) -> Seq<char> {
    if utf8_len(s) <= max {
        s
    } else {
        s.take(choose|k: int| 0 <= k <= s.len() && utf8_len(#[trigger] s.take(k)) == max) + "…"@
    }
}

pub(crate) proof fn lemma_utf8_len_take(s: Seq<char>, i: int)
    requires
        0 <= i < s.len(),
    ensures
        utf8_len(s.take(i + 1)) == utf8_len(s.take(i)) + char_utf8_len(s[i]),
        utf8_len(s.take(i + 1)) > utf8_len(s.take(i)),
{
    assert(s.take(i + 1).drop_last() =~= s.take(i));
}

pub(crate) proof fn lemma_utf8_len_mono(s: Seq<char>, a: int, b: int)
    requires
        0 <= a <= b <= s.len(),
    ensures
        utf8_len(s.take(a)) <= utf8_len(s.take(b)),
        a < b ==> utf8_len(s.take(a)) < utf8_len(s.take(b)),
    decreases b - a,
{
    if a < b {
        lemma_utf8_len_mono(s, a, b - 1);
        lemma_utf8_len_take(s, b - 1);
    }
}

pub(crate) fn char_bytes(c: char) -> (n: usize)
    ensures
        n == char_utf8_len(c),
{
    let u = c as u32;
    if u < 0x80 {
        1
    } else if u < 0x800 {
        2
    } else if u < 0x10000 {
        3
    } else {
        4
    }
}

/// Cuts `s` after `max` bytes and marks the cut with `…`; `s` itself when it is
/// not longer. `max` must fall between two characters.
pub fn truncate(s: &str, max: usize) -> (r: String)
    requires
        cuttable(s@, max as nat),
    ensures
        r@ == truncated(s@, max as nat),
{
    let c = chars_of(s);
    let mut out = String::new();
    let mut bytes: usize = 0;
    let mut i: usize = 0;
    while i < c.len() && bytes < max
        invariant
            c@ == s@,
            i <= c.len(),
            bytes == utf8_len(c@.take(i as int)),
            bytes <= max,
            out@ == c@.take(i as int),
            cuttable(s@, max as nat),
        decreases c.len() - i,
    {
        proof {
            lemma_utf8_len_take(c@, i as int);
            if utf8_len(c@) > max {
                let k = choose|k: int| 0 <= k <= c@.len() && utf8_len(#[trigger] c@.take(k)) == max;
                if k <= i {
                    lemma_utf8_len_mono(c@, k, i as int);
                }
                lemma_utf8_len_mono(c@, i + 1, k);
            } else {
                lemma_utf8_len_mono(c@, i + 1, c@.len() as int);
                assert(c@.take(c@.len() as int) =~= c@);
            }
        }
        let n = char_bytes(c[i]);
        bytes = bytes + n;
        push_char(&mut out, c[i]);
        i = i + 1;
        assert(out@ =~= c@.take(i as int));
    }
    if i == c.len() {
        assert(c@.take(i as int) =~= c@);
        proof {
            if utf8_len(c@) > max {
                let k = choose|k: int| 0 <= k <= c@.len() && utf8_len(#[trigger] c@.take(k)) == max;
                lemma_utf8_len_mono(c@, k, c@.len() as int);
            }
        }
        return out;
    }
    proof {
        assert(bytes == max);
        lemma_utf8_len_mono(c@, i as int, c@.len() as int);
        assert(c@.take(c@.len() as int) =~= c@);
        if utf8_len(c@) <= max {
            lemma_utf8_len_mono(c@, i as int, c@.len() as int);
        }
        let k = choose|k: int| 0 <= k <= c@.len() && utf8_len(#[trigger] c@.take(k)) == max;
        if k < i {
            lemma_utf8_len_mono(c@, k, i as int);
        } else if k > i {
            lemma_utf8_len_mono(c@, i as int, k);
        }
    }
    push_str(&mut out, "…");
    out
}


// ---------------------------------------------------------------------------
// Conversation turns
// ---------------------------------------------------------------------------

/// The most answers the agent asks of the model in one conversation.
pub const MAX_CLI_TURNS: usize = 10;

/// A tool call the model made: its id, the tool's name and, for `finalize_prompt`,
/// the professional prompt its arguments carry (if they carry one as text).
#[derive(Debug, Clone)]
pub struct PrompterToolCall {
    pub id: String,
    pub name: String,
    pub professional_prompt: Option<String>,
}

/// An answer of the model: tool calls, or plain text.
#[derive(Debug, Clone)]
pub enum PrompterAnswer {
    ToolCalls(Vec<PrompterToolCall>),
    Text(String),
}

/// What the agent does with an answer.
#[derive(Debug)]
pub enum PrompterStep {
    /// Show the messages of these calls (by position, in order), reading the user's
    /// reply where a call asks for one, then ask the model again.
    Display(Vec<usize>),
    /// Show the messages of these calls, then finish with the answer's tool calls.
    Finalize(Vec<usize>),
    /// Stop with this error.
    Fail(AetherError),
}

/// A step, with its error as a value.
pub enum StepSpec {
    Display(Seq<usize>),
    Finalize(Seq<usize>),
    Fail(ErrorV),
}

/// The positions of the calls named `name`, in order.
pub open spec fn positions_named(calls: Seq<PrompterToolCall>, name: Seq<char>) -> Seq<usize>
    decreases calls.len(),
{
    if calls.len() == 0 {
        Seq::empty()
    } else {
        positions_named(calls.drop_last(), name) + if calls.last().name@ == name {
            seq![(calls.len() - 1) as usize]
        } else {
            Seq::empty()
        }
    }
}

/// Some call is named `name`.
pub open spec fn has_call(calls: Seq<PrompterToolCall>, name: Seq<char>) -> bool {
    exists|i: int| 0 <= i < calls.len() && (#[trigger] calls[i]).name@ == name
}

/// The message of a text answer: the first 200 bytes of the text.
pub open spec fn text_answer_msg(t: Seq<char>) -> Seq<char> {
    "Prompter LLM a répondu en texte sans outil — relancez ou précisez la demande. Extrait: "@ + truncated(t, 200)
}

/// What the agent does with an answer: a text answer fails; among tool calls, the
/// `display_cli_message` ones are shown, then a `finalize_prompt` call finishes the
/// turn, else shown messages lead to another turn, else the turn fails.
pub open spec fn step_spec(a: PrompterAnswer) -> StepSpec {
    match a {
        PrompterAnswer::Text(t) => StepSpec::Fail(ErrorV::OperationFailed(text_answer_msg(t@))),
        PrompterAnswer::ToolCalls(calls) => {
            let shown = positions_named(calls@, "display_cli_message"@);
            if has_call(calls@, "finalize_prompt"@) {
                StepSpec::Finalize(shown)
            } else if shown.len() > 0 {
                StepSpec::Display(shown)
            } else {
                StepSpec::Fail(ErrorV::OperationFailed("Prompter LLM: outil inconnu ou finalize manquant"@))
            }
        },
    }
}

impl View for PrompterStep {
    type V = StepSpec;

    open spec fn view(&self) -> StepSpec {
        match self {
            PrompterStep::Display(v) => StepSpec::Display(v@),
            PrompterStep::Finalize(v) => StepSpec::Finalize(v@),
            PrompterStep::Fail(e) => StepSpec::Fail(e@),
        }
    }
}

/// A text answer that can be quoted in the failure message.
pub open spec fn answer_quotable(a: PrompterAnswer) -> bool {
    match a {
        PrompterAnswer::Text(t) => cuttable(t@, 200),
        _ => true,
    }
}

/// Decides what the agent does with an answer of the model.
pub fn prompter_step(answer: &PrompterAnswer) -> (r: PrompterStep)
    requires
        answer_quotable(*answer),
    ensures
        r@ == step_spec(*answer),
{
    match answer {
        PrompterAnswer::Text(t) => {
            let mut m = owned("Prompter LLM a répondu en texte sans outil — relancez ou précisez la demande. Extrait: ");
            let cut = truncate(t.as_str(), 200);
            push_str(&mut m, cut.as_str());
            PrompterStep::Fail(AetherError::OperationFailed(m))
        },
        PrompterAnswer::ToolCalls(calls) => {
            let mut shown: Vec<usize> = Vec::new();
            let mut finalize = false;
            let mut i: usize = 0;
            while i < calls.len()
                invariant
                    i <= calls.len(),
                    shown@ == positions_named(calls@.take(i as int), "display_cli_message"@),
                    finalize == has_call(calls@.take(i as int), "finalize_prompt"@),
                decreases calls.len() - i,
            {
                proof {
                    assert(calls@.take(i + 1).drop_last() =~= calls@.take(i as int));
                    assert(calls@.take(i + 1).last() == calls@[i as int]);
                    if has_call(calls@.take(i as int), "finalize_prompt"@) {
                        let j = choose|j: int| 0 <= j < i && (#[trigger] calls@.take(i as int)[j]).name@ == "finalize_prompt"@;
                        assert(calls@.take(i + 1)[j] == calls@.take(i as int)[j]);
                    }
                    if has_call(calls@.take(i + 1), "finalize_prompt"@) {
                        let j = choose|j: int| 0 <= j < i + 1 && (#[trigger] calls@.take(i + 1)[j]).name@ == "finalize_prompt"@;
                        if j < i {
                            assert(calls@.take(i as int)[j] == calls@.take(i + 1)[j]);
                        }
                    }
                }
                let name = calls[i].name.as_str();
                if str_eq(name, "display_cli_message") {
                    shown.push(i);
                }
                if str_eq(name, "finalize_prompt") {
                    finalize = true;
                    assert(calls@.take(i + 1)[i as int] == calls@[i as int]);
                }
                i = i + 1;
            }
            assert(calls@.take(i as int) =~= calls@);
            if finalize {
                PrompterStep::Finalize(shown)
            } else if shown.len() > 0 {
                PrompterStep::Display(shown)
            } else {
                PrompterStep::Fail(AetherError::OperationFailed(owned("Prompter LLM: outil inconnu ou finalize manquant")))
            }
        },
    }
}

/// The failure once the model has answered `MAX_CLI_TURNS` times without
/// finishing.
pub fn turns_exhausted() -> (e: AetherError)
    ensures
        e@ == ErrorV::OperationFailed("Prompter LLM: nombre max de tours CLI atteint"@),
{
    AetherError::OperationFailed(owned("Prompter LLM: nombre max de tours CLI atteint"))
}

/// A call that stops the finishing: one naming an unknown tool, or a
/// `finalize_prompt` without a prompt.
pub open spec fn blocks(c: PrompterToolCall) -> bool {
    (c.name@ == "finalize_prompt"@ && c.professional_prompt is None) || !(c.name@ == "finalize_prompt"@ || c.name@
        == "display_cli_message"@ || c.name@ == "ask_clarification"@)
}

/// The error a blocking call stops the finishing with.
pub open spec fn block_error(c: PrompterToolCall) -> ErrorV {
    if c.name@ == "finalize_prompt"@ {
        ErrorV::OperationFailed("finalize_prompt: professional_prompt manquant"@)
    } else {
        ErrorV::OperationFailed("Prompter Agent: outil inconnu '"@ + c.name@ + "'"@)
    }
}

/// The position of the last `finalize_prompt` call.
pub open spec fn last_finalize(calls: Seq<PrompterToolCall>) -> Option<int>
    decreases calls.len(),
{
    if calls.len() == 0 {
        None
    } else if calls.last().name@ == "finalize_prompt"@ {
        Some(calls.len() - 1)
    } else {
        last_finalize(calls.drop_last())
    }
}

/// How the finishing tool calls end: the first blocking call stops them; else the
/// last `finalize_prompt` call gives the prompt (its position and text); without
/// one they are refused.
pub open spec fn finalize_spec(calls: Seq<PrompterToolCall>) -> Result<(int, Seq<char>), ErrorV> {
    match crate::text::first_index(calls, |c: PrompterToolCall| blocks(c)) {
        Some(i) => Err(block_error(calls[i])),
        None => match last_finalize(calls) {
            Some(j) => Ok((j, calls[j].professional_prompt->0@)),
            None => Err(ErrorV::OperationFailed("Prompter Agent: aucun finalize_prompt après tour d'outils"@)),
        },
    }
}

/// Finishes a turn of tool calls: the prompt of the last `finalize_prompt` call
/// and its position.
pub fn finalize_call(calls: &Vec<PrompterToolCall>) -> (r: Result<(usize, String), AetherError>)
    ensures
        match finalize_spec(calls@) {
            Ok((j, p)) => r matches Ok(t) && t.0 == j && t.1@ == p,
            Err(e) => r matches Err(x) && x@ == e,
        },
{
    let mut found: Option<usize> = None;
    let mut i: usize = 0;
    while i < calls.len()
        invariant
            i <= calls.len(),
            forall|j: int| 0 <= j < i ==> !blocks(#[trigger] calls@[j]),
            found matches Some(j) ==> last_finalize(calls@.take(i as int)) == Some(j as int) && j < i
                && calls@[j as int].professional_prompt is Some,
            found is None ==> last_finalize(calls@.take(i as int)) is None,
        decreases calls.len() - i,
    {
        proof {
            assert(calls@.take(i + 1).drop_last() =~= calls@.take(i as int));
            assert(calls@.take(i + 1).last() == calls@[i as int]);
        }
        let c = &calls[i];
        let name = c.name.as_str();
        if str_eq(name, "finalize_prompt") {
            if c.professional_prompt.is_none() {
                proof {
                    crate::text::lemma_first_index(calls@, |c: PrompterToolCall| blocks(c), i as int);
                }
                return Err(AetherError::OperationFailed(owned("finalize_prompt: professional_prompt manquant")));
            }
            found = Some(i);
        } else if !(str_eq(name, "display_cli_message") || str_eq(name, "ask_clarification")) {
            proof {
                crate::text::lemma_first_index(calls@, |c: PrompterToolCall| blocks(c), i as int);
            }
            let mut m = owned("Prompter Agent: outil inconnu '");
            push_str(&mut m, name);
            push_str(&mut m, "'");
            return Err(AetherError::OperationFailed(m));
        }
        i = i + 1;
    }
    proof {
        crate::text::lemma_first_index_none(calls@, |c: PrompterToolCall| blocks(c));
        assert(calls@.take(i as int) =~= calls@);
    }
    assert(calls@.take(i as int) == calls@);
    match found {
        Some(j) => match &calls[j].professional_prompt {
            Some(p) => Ok((j, p.clone())),
            None => Err(AetherError::OperationFailed(owned("Prompter Agent: aucun finalize_prompt après tour d'outils"))),
        },
        None => Err(AetherError::OperationFailed(owned("Prompter Agent: aucun finalize_prompt après tour d'outils"))),
    }
}


// ---------------------------------------------------------------------------
// Guides and messages
// ---------------------------------------------------------------------------

/// The guide of a model: what the prompter tells the language model about it. Its
/// API parameters go beside it: as JSON text into the model block, and as a list of
/// `ParameterSpec`s into `merge_params_with_guide`.
#[derive(Debug, Clone)]
pub struct ModelPromptGuide {
    pub schema_version: u32,
    pub model_id: String,
    pub provider: String,
    pub api_model: String,
    pub display_name: String,
    pub kinds: Vec<String>,
    pub model_guide: String,
}

/// `s` holds only white space (`str::trim` leaves nothing).
pub open spec fn blank(s: Seq<char>) -> bool {
    forall|i: int| 0 <= i < s.len() ==> is_white_space(#[trigger] s[i])
}

/// The block that takes the place of `{model}` in the system message: the model's
/// names, its guide and its API parameters (`params_json`).
pub open spec fn model_block(g: ModelPromptGuide, params_json: Seq<char>) -> Seq<char> {
    "**"@ + g.display_name@ + "** (`"@ + g.model_id@ + "` → API `"@ + g.api_model@ + "`)\n\n### Model guide\n\n"@
        + g.model_guide@ + "\n\n### API parameters\n\nUse these keys in `finalize_prompt.parameters` (include `\"api_model\": \""@
        + g.api_model@ + "\"`).\n\n```json\n"@ + params_json + "\n```\n"@
}

impl ModelPromptGuide {
    /// The guide covers kind `kind` (listed by its name).
    pub fn supports_kind(&self, kind: GenerationKind) -> (r: bool)
        ensures
            r == (exists|i: int| 0 <= i < self.kinds@.len() && (#[trigger] self.kinds@[i])@ == kind_name(kind)),
    {
        let name = kind.name();
        let mut i: usize = 0;
        while i < self.kinds.len()
            invariant
                i <= self.kinds.len(),
                name@ == kind_name(kind),
                forall|j: int| 0 <= j < i ==> (#[trigger] self.kinds@[j])@ != kind_name(kind),
            decreases self.kinds.len() - i,
        {
            if str_eq(self.kinds[i].as_str(), name.as_str()) {
                return true;
            }
            i = i + 1;
        }
        false
    }

    /// The block that takes the place of `{model}` in the system message.
    pub fn format_model_block(&self, params_json: &str) -> (r: String)
        ensures
            r@ == model_block(*self, params_json@),
    {
        let mut r = owned("**");
        push_str(&mut r, self.display_name.as_str());
        push_str(&mut r, "** (`");
        push_str(&mut r, self.model_id.as_str());
        push_str(&mut r, "` → API `");
        push_str(&mut r, self.api_model.as_str());
        push_str(&mut r, "`)\n\n### Model guide\n\n");
        push_str(&mut r, self.model_guide.as_str());
        push_str(&mut r, "\n\n### API parameters\n\nUse these keys in `finalize_prompt.parameters` (include `\"api_model\": \"");
        push_str(&mut r, self.api_model.as_str());
        push_str(&mut r, "\"`).\n\n```json\n");
        push_str(&mut r, params_json);
        push_str(&mut r, "\n```\n");
        r
    }
}

/// Where the guide of `model_id` (`provider/name`) lies under `guides_dir`:
/// `<guides_dir>/<provider>/<name>.json`, split at the first `/`.
pub open spec fn guide_path_spec(model_id: Seq<char>, guides_dir: Seq<char>) -> Result<Seq<char>, ErrorV> {
    let i = crate::edit::char_index(model_id, '/');
    if i < model_id.len() {
        Ok(join_path(join_path(guides_dir, model_id.take(i)), model_id.skip(i + 1) + ".json"@))
    } else {
        Err(ErrorV::OperationFailed("Invalid model_id for guide load: "@ + model_id))
    }
}

/// The file holding the guide of `model_id`.
pub fn guide_path(model_id: &str, guides_dir: &str) -> (r: Result<String, AetherError>)
    ensures
        match guide_path_spec(model_id@, guides_dir@) {
            Ok(p) => r matches Ok(x) && x@ == p,
            Err(e) => r matches Err(x) && x@ == e,
        },
{
    let c = chars_of(model_id);
    let mut i: usize = 0;
    while i < c.len() && c[i] != '/'
        invariant
            c@ == model_id@,
            i <= c.len(),
            forall|j: int| 0 <= j < i ==> c@[j] != '/',
        decreases c.len() - i,
    {
        i = i + 1;
    }
    proof {
        crate::edit::lemma_char_index(c@, '/', i as int);
    }
    if i == c.len() {
        let mut m = owned("Invalid model_id for guide load: ");
        push_str(&mut m, model_id);
        return Err(AetherError::OperationFailed(m));
    }
    let mut provider = String::new();
    let mut k: usize = 0;
    while k < i
        invariant
            c@ == model_id@,
            k <= i < c.len(),
            provider@ == c@.take(k as int),
        decreases i - k,
    {
        push_char(&mut provider, c[k]);
        k = k + 1;
        assert(provider@ =~= c@.take(k as int));
    }
    let mut name = String::new();
    let mut k: usize = i + 1;
    while k < c.len()
        invariant
            c@ == model_id@,
            i < k <= c.len(),
            name@ == c@.subrange(i + 1, k as int),
        decreases c.len() - k,
    {
        push_char(&mut name, c[k]);
        k = k + 1;
        assert(name@ =~= c@.subrange(i + 1, k as int));
    }
    assert(name@ =~= c@.skip(i + 1));
    push_str(&mut name, ".json");
    let dir = path_join(guides_dir, provider.as_str());
    Ok(path_join(dir.as_str(), name.as_str()))
}

/// Checks a guide read from `path`: schema version 2, and a guide text that is
/// not blank.
pub fn check_guide(guide: ModelPromptGuide, path: &str) -> (r: Result<ModelPromptGuide, AetherError>)
    ensures
        guide.schema_version != 2 ==> (r matches Err(x) && x@ == ErrorV::OperationFailed(
            "Unsupported guide schema_version "@ + decimal(guide.schema_version as nat) + " in "@ + path@ + " (expected 2)"@,
        )),
        guide.schema_version == 2 && blank(guide.model_guide@) ==> (r matches Err(x) && x@ == ErrorV::OperationFailed(
            "model_guide must be non-empty inline text in "@ + path@,
        )),
        guide.schema_version == 2 && !blank(guide.model_guide@) ==> r == Ok::<ModelPromptGuide, AetherError>(guide),
{
    if guide.schema_version != 2 {
        let mut m = owned("Unsupported guide schema_version ");
        let d = u64_decimal(guide.schema_version as u64);
        push_str(&mut m, d.as_str());
        push_str(&mut m, " in ");
        push_str(&mut m, path);
        push_str(&mut m, " (expected 2)");
        return Err(AetherError::OperationFailed(m));
    }
    let g = chars_of(guide.model_guide.as_str());
    let mut i: usize = 0;
    while i < g.len()
        invariant
            g@ == guide.model_guide@,
            guide.schema_version == 2,
            i <= g.len(),
            forall|j: int| 0 <= j < i ==> is_white_space(#[trigger] g@[j]),
        decreases g.len() - i,
    {
        if !crate::text::char_is_whitespace(g[i]) {
            return Ok(guide);
        }
        i = i + 1;
    }
    let mut m = owned("model_guide must be non-empty inline text in ");
    push_str(&mut m, path);
    Err(AetherError::OperationFailed(m))
}

/// `s` with every occurrence of `p` replaced by `r`, scanning from the left
/// without overlaps (`str::replace`).
pub open spec fn replace_all(s: Seq<char>, p: Seq<char>, r: Seq<char>) -> Seq<char>
    decreases s.len(),
{
    if p.len() == 0 || s.len() < p.len() {
        s
    } else if s.take(p.len() as int) == p {
        r + replace_all(s.skip(p.len() as int), p, r)
    } else {
        seq![s[0]] + replace_all(s.drop_first(), p, r)
    }
}

/// The system message: the template with `{model}` replaced by the model's block;
/// a template without `{model}` is refused.
pub fn system_message(template: &str, block: &str) -> (r: Result<String, AetherError>)
    ensures
        !crate::text::has_substring(template@, "{model}"@) ==> (r matches Err(x) && x@ == ErrorV::OperationFailed(
            "system.md must contain the {model} placeholder"@,
        )),
        crate::text::has_substring(template@, "{model}"@) ==> (r matches Ok(x) && x@ == replace_all(
            template@,
            "{model}"@,
            block@,
        )),
{
    if !crate::text::str_contains(template, "{model}") {
        return Err(AetherError::OperationFailed(owned("system.md must contain the {model} placeholder")));
    }
    let t = chars_of(template);
    let p = chars_of("{model}");
    proof {
        reveal_strlit("{model}");
    }
    assert(p@.len() == 7);
    let mut out = String::new();
    let mut i: usize = 0;
    assert(out@ + replace_all(t@.skip(0), p@, block@) =~= replace_all(t@, p@, block@)) by {
        assert(t@.skip(0) =~= t@);
        assert(out@ =~= Seq::<char>::empty());
    }
    while i < t.len()
        invariant
            t@ == template@,
            p@ == "{model}"@,
            p@.len() == 7,
            i <= t.len(),
            out@ + replace_all(t@.skip(i as int), p@, block@) == replace_all(t@, p@, block@),
        decreases t.len() - i,
    {
        let ghost rest = t@.skip(i as int);
        if t.len() >= 7 && i <= t.len() - 7 {
            let mut same = true;
            let mut k: usize = 0;
            while k < 7
                invariant
                    t@ == template@,
                    p@.len() == 7,
                    i + 7 <= t.len(),
                    k <= 7,
                    same == (forall|m: int| 0 <= m < k ==> t@[i + m] == p@[m]),
                decreases 7 - k,
            {
                if t[i + k] != p[k] {
                    same = false;
                }
                k = k + 1;
            }
            if same {
                assert(rest.take(7) =~= p@);
                assert(rest.skip(7) =~= t@.skip(i + 7));
                let ghost before = out@;
                push_str(&mut out, block);
                assert(out@ + replace_all(t@.skip(i + 7), p@, block@) =~= before + (block@ + replace_all(
                    rest.skip(7),
                    p@,
                    block@,
                )));
                i = i + 7;
                continue;
            } else {
                assert(rest.take(7) != p@) by {
                    let m = choose|m: int| 0 <= m < 7 && t@[i + m] != p@[m];
                    assert(rest.take(7)[m] == t@[i + m]);
                }
            }
        }
        assert(rest.drop_first() =~= t@.skip(i + 1));
        let ghost before = out@;
        push_char(&mut out, t[i]);
        assert(out@ + replace_all(t@.skip(i + 1), p@, block@) =~= before + (seq![rest[0]] + replace_all(
            rest.drop_first(),
            p@,
            block@,
        )));
        i = i + 1;
    }
    assert(t@.skip(i as int) =~= Seq::<char>::empty());
    assert(out@ + Seq::<char>::empty() =~= out@);
    Ok(out)
}


/// A labelled part, when the value is given.
pub open spec fn opt_part(label: Seq<char>, v: Option<Seq<char>>) -> Seq<Seq<char>> {
    match v {
        Some(x) => seq![label + x],
        None => Seq::empty(),
    }
}

/// The parts a vault adds: its rules and its snippets, each joined with ` | `, when
/// it has any.
pub open spec fn vault_part(v: VaultContextView) -> Seq<Seq<char>> {
    (if v.rules.len() > 0 {
        seq!["Règles vault: "@ + join(v.rules, " | "@)]
    } else {
        Seq::empty()
    }) + (if v.snippets.len() > 0 {
        seq!["Snippets vault: "@ + join(v.snippets, " | "@)]
    } else {
        Seq::empty()
    })
}

/// The parts all vaults add, in order.
pub open spec fn vault_parts(vs: Seq<VaultContextView>) -> Seq<Seq<char>>
    decreases vs.len(),
{
    if vs.len() == 0 {
        Seq::empty()
    } else {
        vault_parts(vs.drop_last()) + vault_part(vs.last())
    }
}

/// The parts of the first user message: the request, then the project's locale,
/// style hint and summary when given, the vaults' rules and snippets, and the
/// explicit options (`explicit`, their JSON text) unless there are none.
pub open spec fn user_parts(req: Seq<char>, ctx: PromptMakerContext, explicit: Seq<char>) -> Seq<Seq<char>> {
    seq!["Demande client:\n"@ + req] + opt_part("Locale projet: "@, opt_view(ctx.locale)) + opt_part(
        "Style hint: "@,
        opt_view(ctx.style_hint),
    ) + opt_part("Résumé projet: "@, opt_view(ctx.project_summary)) + vault_parts(
        vaults_of(opt_context_view(ctx.vault_context)),
    ) + if explicit == "null"@ || explicit == "{}"@ {
        Seq::<Seq<char>>::empty()
    } else {
        seq!["Options explicites (prioritaires): "@ + explicit]
    }
}

fn push_opt_part(parts: &mut Vec<String>, label: &str, v: &Option<String>)
    ensures
        string_views(final(parts)@) == string_views(old(parts)@) + opt_part(label@, opt_view(*v)),
{
    let ghost before = string_views(parts@);
    match v {
        Some(x) => {
            let mut p = owned(label);
            push_str(&mut p, x.as_str());
            parts.push(p);
            assert(string_views(parts@) =~= before + opt_part(label@, opt_view(*v)));
        },
        None => {
            assert(before + opt_part(label@, opt_view(*v)) =~= before);
        },
    }
}

/// The first user message of a conversation: its parts joined by blank lines.
/// `explicit_json` is the JSON text of the explicit options.
pub fn build_user_message(user_request: &str, context: &PromptMakerContext, explicit_json: &str) -> (r: String)
    ensures
        r@ == join(user_parts(user_request@, *context, explicit_json@), "\n\n"@),
{
    let mut parts: Vec<String> = Vec::new();
    let mut first = owned("Demande client:\n");
    push_str(&mut first, user_request);
    parts.push(first);
    assert(string_views(parts@) =~= seq!["Demande client:\n"@ + user_request@]);
    push_opt_part(&mut parts, "Locale projet: ", &context.locale);
    push_opt_part(&mut parts, "Style hint: ", &context.style_hint);
    push_opt_part(&mut parts, "Résumé projet: ", &context.project_summary);
    let empty: Vec<VaultPromptContext> = Vec::new();
    let vaults = match &context.vault_context {
        Some(vc) => &vc.vault_context,
        None => &empty,
    };
    let ghost vs = contexts_view(vaults@);
    assert(vs == vaults_of(opt_context_view(context.vault_context))) by {
        if context.vault_context is None {
            assert(contexts_view(empty@) =~= Seq::<VaultContextView>::empty());
        }
    }
    let ghost base = string_views(parts@);
    let mut i: usize = 0;
    while i < vaults.len()
        invariant
            i <= vaults.len(),
            vs == contexts_view(vaults@),
            string_views(parts@) == base + vault_parts(vs.take(i as int)),
        decreases vaults.len() - i,
    {
        let v = &vaults[i];
        proof {
            assert(vs.take(i + 1).drop_last() =~= vs.take(i as int));
            assert(vs.take(i + 1).last() == vs[i as int]);
            assert(vs[i as int] == v@);
        }
        let ghost before = string_views(parts@);
        if v.rules.len() > 0 {
            let mut p = owned("Règles vault: ");
            let j = join_strings(&v.rules, " | ");
            push_str(&mut p, j.as_str());
            parts.push(p);
        }
        let ghost mid = string_views(parts@);
        if v.prompt_snippets.len() > 0 {
            let mut p = owned("Snippets vault: ");
            let j = join_strings(&v.prompt_snippets, " | ");
            push_str(&mut p, j.as_str());
            parts.push(p);
        }
        assert(string_views(parts@) =~= before + vault_part(v@));
        i = i + 1;
    }
    assert(vs.take(i as int) =~= vs);
    let ghost after_vaults = string_views(parts@);
    if !(str_eq(explicit_json, "null") || str_eq(explicit_json, "{}")) {
        let mut p = owned("Options explicites (prioritaires): ");
        push_str(&mut p, explicit_json);
        parts.push(p);
    }
    assert(string_views(parts@) =~= user_parts(user_request@, *context, explicit_json@));
    join_strings(&parts, "\n\n")
}

// ---------------------------------------------------------------------------
// The agent
// ---------------------------------------------------------------------------

/// The prompter agent: the guides directory, the rule-based maker it falls back
/// on, and the language model call when the LLM prompter is on and configured.
#[derive(Debug, Clone)]
pub struct LlmPrompterAgent {
    pub guides_dir: String,
    pub fallback: RuleBasedPromptMaker,
    caller: Option<PrompterCall>,
}

impl LlmPrompterAgent {
    /// The language model call, if the agent has one.
    pub closed spec fn caller_spec(&self) -> Option<PrompterCall> {
        self.caller
    }

    /// The directory the agent reads guides from.
    pub closed spec fn guides_dir_view(&self) -> Seq<char> {
        self.guides_dir@
    }

    /// An agent reading guides from `guides_dir`. `llm_setting` is the value of
    /// `AETHER_PROMPTER_LLM`; when the LLM prompter is on, the call is built from
    /// the agents configuration and the bridge script, and left out when that
    /// fails.
    pub fn with_guides_dir(
        guides_dir: String,
        llm_setting: Option<&str>,
        agents: Result<AgentsConfigFile, AetherError>,
        bridge_script: Result<String, AetherError>,
    ) -> (a: LlmPrompterAgent)
        ensures
            a.guides_dir_view() == guides_dir@,
            (llm_setting matches Some(v) && (v@ == "0"@ || v@ == "false"@ || v@ == "off"@)) ==> a.caller_spec() is None,
            !(llm_setting matches Some(v) && (v@ == "0"@ || v@ == "false"@ || v@ == "off"@)) ==> match agents {
                Err(_) => a.caller_spec() is None,
                Ok(c) => match agent_index(c.agents@, "prompter"@) {
                    None => a.caller_spec() is None,
                    Some(i) => match bridge_script {
                        Err(_) => a.caller_spec() is None,
                        Ok(s) => a.caller_spec() matches Some(p) && p.config_view() == c.agents@[i].1@ && p.script() == s@,
                    },
                },
            },
    {
        let caller = if prompter_llm_enabled(llm_setting) {
            match PrompterCall::new(agents, bridge_script) {
                Ok(c) => Some(c),
                Err(_) => None,
            }
        } else {
            None
        };
        LlmPrompterAgent { guides_dir, fallback: RuleBasedPromptMaker, caller }
    }

    /// The language model call, if the agent has one.
    pub fn caller(&self) -> (r: &Option<PrompterCall>)
        ensures
            *r == self.caller_spec(),
    {
        &self.caller
    }
}

/// Where a prompt request goes before any model is asked: refused without a target
/// model, to the rule-based maker for the mock models (`mock/...`), else to the
/// guide of the target model.
#[derive(Debug)]
pub enum PrompterRoute {
    Fallback,
    Guide(String),
    Fail(AetherError),
}

/// `t` starts with `p`.
pub open spec fn starts_with(t: Seq<char>, p: Seq<char>) -> bool {
    p.len() <= t.len() && t.take(p.len() as int) == p
}

/// Routes a prompt request by its target model.
pub fn route_for_model(target_model_id: &Option<String>) -> (r: PrompterRoute)
    ensures
        match target_model_id {
            None => r matches PrompterRoute::Fail(e) && e@ == ErrorV::OperationFailed(
                "LlmPrompterAgent requires context.target_model_id"@,
            ),
            Some(id) => if starts_with(id@, "mock/"@) {
                r is Fallback
            } else {
                r matches PrompterRoute::Guide(g) && g@ == id@
            },
        },
{
    match target_model_id {
        None => PrompterRoute::Fail(AetherError::OperationFailed(owned("LlmPrompterAgent requires context.target_model_id"))),
        Some(id) => {
            let c = chars_of(id.as_str());
            let p = chars_of("mock/");
            let mut same = c.len() >= p.len();
            let mut k: usize = 0;
            while same && k < p.len()
                invariant
                    c@ == id@,
                    p@ == "mock/"@,
                    k <= p.len(),
                    same ==> c.len() >= p.len(),
                    same ==> forall|m: int| 0 <= m < k ==> c@[m] == p@[m],
                    !same ==> !starts_with(id@, "mock/"@),
                decreases p.len() - k,
            {
                if c[k] != p[k] {
                    same = false;
                    assert(id@.take(p@.len() as int)[k as int] != p@[k as int]);
                }
                k = k + 1;
            }
            if same {
                assert(id@.take(p@.len() as int) =~= p@);
                PrompterRoute::Fallback
            } else {
                PrompterRoute::Guide(id.clone())
            }
        },
    }
}

/// What the agent does once the target model's guide is loaded (or not): the guide
/// when it covers the kind and the model call is there (refused without the call),
/// the rule-based maker when it does not cover the kind; a guide that cannot be
/// loaded sends all but image requests to the rule-based maker.
#[derive(Debug)]
pub enum GuideDecision {
    UseGuide,
    Fallback,
    Fail(AetherError),
}

pub fn after_guide_load(kind: GenerationKind, loaded: &Result<ModelPromptGuide, AetherError>, has_caller: bool) -> (r: GuideDecision)
    ensures
        match loaded {
            Ok(g) => if exists|i: int| 0 <= i < g.kinds@.len() && (#[trigger] g.kinds@[i])@ == kind_name(kind) {
                if has_caller {
                    r is UseGuide
                } else {
                    r matches GuideDecision::Fail(e) && e@ == ErrorV::OperationFailed(
                        "Prompter Agent LLM requis (agents.v1.json + bridge TS, ou AETHER_PROMPTER_LLM=0 + mock)"@,
                    )
                }
            } else {
                r is Fallback
            },
            Err(e) => if kind != GenerationKind::ImageEdit && kind != GenerationKind::Image {
                r is Fallback
            } else {
                r matches GuideDecision::Fail(x) && x@ == e@
            },
        },
{
    match loaded {
        Ok(g) => {
            if g.supports_kind(kind) {
                if has_caller {
                    GuideDecision::UseGuide
                } else {
                    GuideDecision::Fail(
                        AetherError::OperationFailed(
                            owned("Prompter Agent LLM requis (agents.v1.json + bridge TS, ou AETHER_PROMPTER_LLM=0 + mock)"),
                        ),
                    )
                }
            } else {
                GuideDecision::Fallback
            }
        },
        Err(e) => {
            if kind != GenerationKind::ImageEdit && kind != GenerationKind::Image {
                GuideDecision::Fallback
            } else {
                GuideDecision::Fail(copy_error(e))
            }
        },
    }
}

/// A copy of an error.
pub fn copy_error(e: &AetherError) -> (r: AetherError)
    ensures
        r@ == e@,
{
    match e {
        AetherError::InvalidRef(a, b) => AetherError::InvalidRef(a.clone(), b.clone()),
        AetherError::RefNotFound(r) => AetherError::RefNotFound(*r),
        AetherError::RefAlreadyExists(r) => AetherError::RefAlreadyExists(*r),
        AetherError::InvalidCommand(m) => AetherError::InvalidCommand(m.clone()),
        AetherError::IoError(a, b) => AetherError::IoError(a.clone(), b.clone()),
        AetherError::DatabaseError(m) => AetherError::DatabaseError(m.clone()),
        AetherError::MediaError(m) => AetherError::MediaError(m.clone()),
        AetherError::OperationFailed(m) => AetherError::OperationFailed(m.clone()),
        AetherError::VaultError(m) => AetherError::VaultError(m.clone()),
        AetherError::PrompterNeedsClarification(m) => AetherError::PrompterNeedsClarification(m.clone()),
    }
}

// ---------------------------------------------------------------------------
// Parameters of a model's API
// ---------------------------------------------------------------------------

/// An API parameter a model guide describes. JSON values are held as the compact
/// text `serde_json` writes for them; a `null` default as none.
#[derive(Debug, Clone)]
pub struct ParameterSpec {
    pub param_type: String,
    pub default: Option<String>,
    pub allowed: Vec<String>,
    pub required: bool,
    pub description: Option<String>,
}

/// The explicit options of a request, as the parameters read them: the entries of
/// the options when they are a JSON object, and for each entry whose value is an
/// object, that object's entries. Values are compact JSON text.
#[derive(Debug, Clone)]
pub struct ExplicitOptions {
    pub entries: Option<Vec<(String, String)>>,
    pub objects: Vec<(String, Vec<(String, String)>)>,
}

/// The name given to whether `serde_json` reads the two texts as equal JSON values.
pub uninterp spec fn json_values_equal(a: Seq<char>, b: Seq<char>) -> bool;

/// Whether two JSON texts hold equal values (`serde_json::Value`'s `==`); false
/// when either does not parse. What the crate counts as equal is left to the name.
#[verifier::external_body]
fn json_equal(a: &str, b: &str) -> (r: bool)
    ensures
        r == json_values_equal(a@, b@),
{
    match (serde_json::from_str::<serde_json::Value>(a), serde_json::from_str::<serde_json::Value>(b)) {
        (Ok(x), Ok(y)) => x == y,
        _ => false,
    }
}

/// The name given to the `Debug` text of the list of JSON values the texts hold.
pub uninterp spec fn json_list_debug(items: Seq<Seq<char>>) -> Seq<char>;

/// The `Debug` text of a list of `serde_json::Value`s, read from their texts (a
/// text that does not parse counts as `null`). The text is only named.
#[verifier::external_body]
fn debug_json_list(items: &Vec<String>) -> (r: String)
    ensures
        r@ == json_list_debug(string_views(items@)),
{
    let mut values: Vec<serde_json::Value> = Vec::new();
    for t in items {
        values.push(serde_json::from_str(t).unwrap_or(serde_json::Value::Null));
    }
    format!("{:?}", values)
}

/// The names of a list of parameters, as character sequences.
pub open spec fn param_names(ps: Seq<(String, ParameterSpec)>) -> Seq<Seq<char>> {
    ps.map_values(|p: (String, ParameterSpec)| p.0@)
}

/// The parameters chosen by the language model, with `api_model` set to the guide's
/// API model (a JSON string) when the model left it out.
pub open spec fn with_api_model(m: Map<Seq<char>, Seq<char>>, api_model: Seq<char>) -> Map<Seq<char>, Seq<char>> {
    if m.contains_key("api_model"@) {
        m
    } else {
        m.insert("api_model"@, crate::providers::json_string_text(api_model))
    }
}

/// A value is allowed for a parameter: it lists no allowed values, or one equal to it.
pub open spec fn allowed_value(p: ParameterSpec, v: Seq<char>) -> bool {
    p.allowed@.len() == 0 || exists|i: int| 0 <= i < p.allowed@.len() && json_values_equal(#[trigger] p.allowed@[i]@, v)
}

/// The parameters set a value that the guide does not allow.
pub open spec fn param_refused(m: Map<Seq<char>, Seq<char>>, p: (String, ParameterSpec)) -> bool {
    m.contains_key(p.0@) && !allowed_value(p.1, m[p.0@])
}

/// The refusal of value `value` for parameter `name`.
pub open spec fn refusal_msg(name: Seq<char>, value: Seq<char>, allowed: Seq<Seq<char>>) -> Seq<char> {
    "Paramètre '"@ + name + "' = "@ + value + " hors allowed "@ + json_list_debug(allowed)
}

/// `m` with the default of each parameter it leaves unset (and whose default is not
/// `null`).
pub open spec fn with_defaults(m: Map<Seq<char>, Seq<char>>, ps: Seq<(String, ParameterSpec)>) -> Map<Seq<char>, Seq<char>>
    decreases ps.len(),
{
    if ps.len() == 0 {
        m
    } else {
        let rest = with_defaults(m, ps.drop_last());
        let p = ps.last();
        if !m.contains_key(p.0@) && p.1.default is Some {
            rest.insert(p.0@, p.1.default->0@)
        } else {
            rest
        }
    }
}

/// `m` with the entries `es` set over it, in order; only those whose key is in
/// `keys` when `keys` is given.
pub open spec fn overlay(m: Map<Seq<char>, Seq<char>>, es: Seq<(Seq<char>, Seq<char>)>, keys: Option<Seq<Seq<char>>>) -> Map<Seq<char>, Seq<char>>
    decreases es.len(),
{
    if es.len() == 0 {
        m
    } else {
        let rest = overlay(m, es.drop_last(), keys);
        let e = es.last();
        match keys {
            Some(k) => if k.contains(e.0) {
                rest.insert(e.0, e.1)
            } else {
                rest
            },
            None => rest.insert(e.0, e.1),
        }
    }
}

/// The entries of the object that the explicit options hold under `key`.
pub open spec fn object_under(objects: Seq<(String, Vec<(String, String)>)>, key: Seq<char>) -> Option<Seq<(Seq<char>, Seq<char>)>> {
    match first_index(objects, |o: (String, Vec<(String, String)>)| o.0@ == key) {
        Some(i) => Some(crate::text::text_pairs(objects[i].1@)),
        None => None,
    }
}

/// The parameters sent to the provider of `guide`: those the language model chose
/// (`llm`) with the API model, checked against the allowed values of the guide's
/// parameters `ps` (the first refused, in the order of `ps`, refuses them all), then
/// the defaults of the parameters left unset, the explicit options given under the
/// provider's name, and the explicit options that name one of the parameters.
pub open spec fn merge_spec(
    guide: ModelPromptGuide,
    ps: Seq<(String, ParameterSpec)>,
    llm: Map<Seq<char>, Seq<char>>,
    explicit: ExplicitOptions,
) -> Result<Map<Seq<char>, Seq<char>>, Seq<char>> {
    let m0 = with_api_model(llm, guide.api_model@);
    match first_index(ps, |p: (String, ParameterSpec)| param_refused(m0, p)) {
        Some(i) => Err(refusal_msg(ps[i].0@, m0[ps[i].0@], string_views(ps[i].1.allowed@))),
        None => {
            let m1 = with_defaults(m0, ps);
            let m2 = match object_under(explicit.objects@, guide.provider@) {
                Some(es) => overlay(m1, es, None),
                None => m1,
            };
            Ok(
                match explicit.entries {
                    Some(es) => overlay(m2, crate::text::text_pairs(es@), Some(param_names(ps))),
                    None => m2,
                },
            )
        },
    }
}

/// The position of the entry of key `k` in a list of entries with distinct keys.
fn entry_index(es: &Vec<(String, String)>, k: &str) -> (r: Option<usize>)
    requires
        keys_distinct(text_pairs(es@)),
    ensures
        match r {
            Some(i) => i < es@.len() && es@[i as int].0@ == k@ && table(text_pairs(es@)).contains_key(k@)
                && table(text_pairs(es@))[k@] == es@[i as int].1@,
            None => !table(text_pairs(es@)).contains_key(k@),
        },
{
    let ghost e = text_pairs(es@);
    let mut i: usize = 0;
    while i < es.len()
        invariant
            e == text_pairs(es@),
            keys_distinct(e),
            i <= es@.len(),
            forall|j: int| 0 <= j < i ==> (#[trigger] es@[j]).0@ != k@,
        decreases es.len() - i,
    {
        if str_eq(es[i].0.as_str(), k) {
            proof {
                lemma_table_index(e, i as int);
            }
            return Some(i);
        }
        i = i + 1;
    }
    proof {
        if table(e).contains_key(k@) {
            let j = choose|j: int| 0 <= j < e.len() && e[j].0 == k@;
            assert(es@[j].0@ == e[j].0);
        }
    }
    None
}

/// Sets entry `k` to `v`, keeping the keys distinct.
fn entry_set(es: &mut Vec<(String, String)>, k: String, v: String)
    requires
        keys_distinct(text_pairs(old(es)@)),
    ensures
        keys_distinct(text_pairs(final(es)@)),
        table(text_pairs(final(es)@)) == table(text_pairs(old(es)@)).insert(k@, v@),
{
    let ghost e0 = text_pairs(es@);
    let found = entry_index(es, k.as_str());
    let ghost kv = k@;
    let ghost vv = v@;
    match found {
        Some(i) => {
            es.remove(i);
            es.push((k, v));
            proof {
                assert(text_pairs(es@) =~= e0.remove(i as int).push((e0[i as int].0, vv)));
                lemma_table_replace(e0, i as int, vv);
            }
        },
        None => {
            es.push((k, v));
            proof {
                assert(text_pairs(es@) =~= e0.push((kv, vv)));
                lemma_table_push(e0, kv, vv);
            }
        },
    }
}

/// Whether one of the parameters is named `k`.
fn names_contain(ps: &Vec<(String, ParameterSpec)>, k: &str) -> (r: bool)
    ensures
        r == param_names(ps@).contains(k@),
{
    let mut i: usize = 0;
    while i < ps.len()
        invariant
            i <= ps@.len(),
            forall|j: int| 0 <= j < i ==> (#[trigger] ps@[j]).0@ != k@,
        decreases ps.len() - i,
    {
        if str_eq(ps[i].0.as_str(), k) {
            assert(param_names(ps@)[i as int] == k@);
            return true;
        }
        i = i + 1;
    }
    proof {
        if param_names(ps@).contains(k@) {
            let j = choose|j: int| 0 <= j < param_names(ps@).len() && param_names(ps@)[j] == k@;
            assert(ps@[j].0@ == k@);
        }
    }
    false
}

/// Whether the value `v` is one the parameter allows.
fn value_allowed(spec: &ParameterSpec, v: &str) -> (r: bool)
    ensures
        r == allowed_value(*spec, v@),
{
    if spec.allowed.len() == 0 {
        return true;
    }
    let mut i: usize = 0;
    while i < spec.allowed.len()
        invariant
            i <= spec.allowed@.len(),
            forall|j: int| 0 <= j < i ==> !json_values_equal(#[trigger] spec.allowed@[j]@, v@),
        decreases spec.allowed.len() - i,
    {
        if json_equal(spec.allowed[i].as_str(), v) {
            return true;
        }
        i = i + 1;
    }
    false
}

/// Sets the entries `es` over `params`, in order; with `only` given, just those
/// named by one of its parameters.
fn overlay_entries(params: &mut Vec<(String, String)>, es: &Vec<(String, String)>, only: Option<&Vec<(String, ParameterSpec)>>)
    requires
        keys_distinct(text_pairs(old(params)@)),
    ensures
        keys_distinct(text_pairs(final(params)@)),
        table(text_pairs(final(params)@)) == overlay(table(text_pairs(old(params)@)), text_pairs(es@), match only {
            Some(ps) => Some(param_names(ps@)),
            None => None,
        }),
{
    let ghost m = table(text_pairs(params@));
    let ghost keys = match only {
        Some(ps) => Some(param_names(ps@)),
        None => None,
    };
    let ghost e = text_pairs(es@);
    let mut j: usize = 0;
    while j < es.len()
        invariant
            j <= es@.len(),
            e == text_pairs(es@),
            keys == match only {
                Some(ps) => Some(param_names(ps@)),
                None => None::<Seq<Seq<char>>>,
            },
            keys_distinct(text_pairs(params@)),
            table(text_pairs(params@)) == overlay(m, e.take(j as int), keys),
        decreases es.len() - j,
    {
        proof {
            assert(e.take(j + 1).drop_last() =~= e.take(j as int));
            assert(e.take(j + 1).last() == e[j as int]);
        }
        let set = match only {
            Some(ps) => names_contain(ps, es[j].0.as_str()),
            None => true,
        };
        if set {
            entry_set(params, es[j].0.clone(), es[j].1.clone());
        }
        j = j + 1;
    }
    assert(e.take(es@.len() as int) =~= e);
}

/// Checks the values set in `params` against the parameters' allowed values: the
/// first parameter refused, in the order of `parameters`, gives the error.
fn check_params(params: &Vec<(String, String)>, parameters: &Vec<(String, ParameterSpec)>) -> (r: Result<(), AetherError>)
    requires
        keys_distinct(text_pairs(params@)),
    ensures
        ({
            let m = table(text_pairs(params@));
            match first_index(parameters@, |p: (String, ParameterSpec)| param_refused(m, p)) {
                Some(i) => r matches Err(AetherError::OperationFailed(x)) && x@ == refusal_msg(
                    parameters@[i].0@,
                    m[parameters@[i].0@],
                    string_views(parameters@[i].1.allowed@),
                ),
                None => r is Ok,
            }
        }),
{
    let ghost m = table(text_pairs(params@));
    let ghost ps = parameters@;
    let mut i: usize = 0;
    while i < parameters.len()
        invariant
            i <= ps.len(),
            ps == parameters@,
            keys_distinct(text_pairs(params@)),
            m == table(text_pairs(params@)),
            forall|j: int| 0 <= j < i ==> !param_refused(m, #[trigger] ps[j]),
        decreases parameters.len() - i,
    {
        let name = &parameters[i].0;
        let spec = &parameters[i].1;
        match entry_index(params, name.as_str()) {
            Some(k) => {
                if !value_allowed(spec, params[k].1.as_str()) {
                    proof {
                        lemma_first_index(ps, |p: (String, ParameterSpec)| param_refused(m, p), i as int);
                    }
                    let mut msg = owned("Paramètre '");
                    push_str(&mut msg, name.as_str());
                    push_str(&mut msg, "' = ");
                    push_str(&mut msg, params[k].1.as_str());
                    push_str(&mut msg, " hors allowed ");
                    let listed = debug_json_list(&spec.allowed);
                    push_str(&mut msg, listed.as_str());
                    return Err(AetherError::OperationFailed(msg));
                }
            },
            None => {},
        }
        i = i + 1;
    }
    proof {
        crate::text::lemma_first_index_none(ps, |p: (String, ParameterSpec)| param_refused(m, p));
    }
    Ok(())
}

/// Sets the default of each parameter that `params` leaves unset.
fn fill_defaults(params: &mut Vec<(String, String)>, parameters: &Vec<(String, ParameterSpec)>)
    requires
        keys_distinct(text_pairs(old(params)@)),
        param_names(parameters@).no_duplicates(),
    ensures
        keys_distinct(text_pairs(final(params)@)),
        table(text_pairs(final(params)@)) == with_defaults(table(text_pairs(old(params)@)), parameters@),
{
    let ghost m0 = table(text_pairs(params@));
    let ghost ps = parameters@;
    let mut i: usize = 0;
    while i < parameters.len()
        invariant
            i <= ps.len(),
            ps == parameters@,
            param_names(ps).no_duplicates(),
            keys_distinct(text_pairs(params@)),
            table(text_pairs(params@)) == with_defaults(m0, ps.take(i as int)),
        decreases parameters.len() - i,
    {
        proof {
            assert(ps.take(i + 1).drop_last() =~= ps.take(i as int));
            assert(ps.take(i + 1).last() == ps[i as int]);
            assert forall|j: int| 0 <= j < i implies #[trigger] ps.take(i as int)[j].0@ != ps[i as int].0@ by {
                assert(param_names(ps)[j] == ps[j].0@);
                assert(param_names(ps)[i as int] == ps[i as int].0@);
            }
            lemma_defaults_keep(m0, ps.take(i as int), ps[i as int].0@);
        }
        let name = &parameters[i].0;
        match &parameters[i].1.default {
            Some(d) => {
                if entry_index(params, name.as_str()).is_none() {
                    entry_set(params, name.clone(), d.clone());
                }
            },
            None => {},
        }
        i = i + 1;
    }
    assert(ps.take(ps.len() as int) =~= ps);
}

/// The position of the first nested object of the explicit options under `key`.
fn object_index(objects: &Vec<(String, Vec<(String, String)>)>, key: &str) -> (r: Option<usize>)
    ensures
        match r {
            Some(k) => k < objects@.len() && first_index(objects@, |o: (String, Vec<(String, String)>)| o.0@ == key@) == Some(k as int),
            None => first_index(objects@, |o: (String, Vec<(String, String)>)| o.0@ == key@) is None,
        },
{
    let mut k: usize = 0;
    while k < objects.len()
        invariant
            k <= objects@.len(),
            forall|j: int| 0 <= j < k ==> (#[trigger] objects@[j]).0@ != key@,
        decreases objects.len() - k,
    {
        if str_eq(objects[k].0.as_str(), key) {
            proof {
                lemma_first_index(objects@, |o: (String, Vec<(String, String)>)| o.0@ == key@, k as int);
            }
            return Some(k);
        }
        k = k + 1;
    }
    proof {
        crate::text::lemma_first_index_none(objects@, |o: (String, Vec<(String, String)>)| o.0@ == key@);
    }
    None
}

/// Merges the parameters the language model chose (`llm_params`, a JSON object's
/// entries) with the guide's parameters `parameters`: adds the API model when left
/// out, refuses a value a parameter does not allow, fills in defaults, then lays the
/// explicit options over them (see `merge_spec`).
pub fn merge_params_with_guide(
    guide: &ModelPromptGuide,
    parameters: &Vec<(String, ParameterSpec)>,
    llm_params: Vec<(String, String)>,
    explicit: &ExplicitOptions,
) -> (r: Result<Vec<(String, String)>, AetherError>)
    requires
        keys_distinct(text_pairs(llm_params@)),
        param_names(parameters@).no_duplicates(),
    ensures
        match merge_spec(*guide, parameters@, table(text_pairs(llm_params@)), *explicit) {
            Ok(m) => r matches Ok(out) && keys_distinct(text_pairs(out@)) && table(text_pairs(out@)) == m,
            Err(msg) => r matches Err(AetherError::OperationFailed(x)) && x@ == msg,
        },
{
    let ghost llm = table(text_pairs(llm_params@));
    let mut params = llm_params;
    if entry_index(&params, "api_model").is_none() {
        entry_set(&mut params, owned("api_model"), crate::providers::json_string(guide.api_model.as_str()));
    }
    assert(table(text_pairs(params@)) == with_api_model(llm, guide.api_model@));
    match check_params(&params, parameters) {
        Err(e) => {
            return Err(e);
        },
        Ok(()) => {},
    }
    fill_defaults(&mut params, parameters);
    match object_index(&explicit.objects, guide.provider.as_str()) {
        Some(k) => {
            overlay_entries(&mut params, &explicit.objects[k].1, None);
        },
        None => {},
    }
    match &explicit.entries {
        Some(es) => {
            overlay_entries(&mut params, es, Some(parameters));
        },
        None => {},
    }
    Ok(params)
}

/// The defaults of parameters other than `name` leave its entry as it was.
proof fn lemma_defaults_keep(m: Map<Seq<char>, Seq<char>>, ps: Seq<(String, ParameterSpec)>, name: Seq<char>)
    requires
        forall|j: int| 0 <= j < ps.len() ==> (#[trigger] ps[j]).0@ != name,
    ensures
        with_defaults(m, ps).contains_key(name) == m.contains_key(name),
        m.contains_key(name) ==> with_defaults(m, ps)[name] == m[name],
    decreases ps.len(),
{
    if ps.len() > 0 {
        lemma_defaults_keep(m, ps.drop_last(), name);
        assert(ps.last() == ps[ps.len() - 1]);
    }
}

} // verus!
