//! Configuration of the LLM agents (prompter, planner) and the calls that serve them.

use vstd::prelude::*;
use crate::generate::{invalid_config, msg_invalid_config, msg_schema, unsupported_schema};
use crate::refs::AetherError;
use crate::text::{first_index, lemma_first_index, lemma_first_index_none, owned, push_str, str_eq};

verus! {

/// The model an agent runs on, and the bridge handler serving it.
#[derive(Debug, Clone)]
pub struct AgentModelConfig {
    pub provider: String,
    pub model_id: String,
    pub api_model: String,
    pub bridge_handler: String,
}

/// An agent configuration, as character sequences.
pub struct AgentView {
    pub provider: Seq<char>,
    pub model_id: Seq<char>,
    pub api_model: Seq<char>,
    pub bridge_handler: Seq<char>,
}

impl View for AgentModelConfig {
    type V = AgentView;

    open spec fn view(&self) -> AgentView {
        AgentView {
            provider: self.provider@,
            model_id: self.model_id@,
            api_model: self.api_model@,
            bridge_handler: self.bridge_handler@,
        }
    }
}

impl AgentModelConfig {
    /// A copy with the same fields.
    pub fn duplicate(&self) -> (r: AgentModelConfig)
        ensures
            r@ == self@,
    {
        AgentModelConfig {
            provider: self.provider.clone(),
            model_id: self.model_id.clone(),
            api_model: self.api_model.clone(),
            bridge_handler: self.bridge_handler.clone(),
        }
    }
}

/// The agents configuration file (`agents.v1.json`): each agent by name.
#[derive(Debug, Clone)]
pub struct AgentsConfigFile {
    pub schema_version: u32,
    pub agents: Vec<(String, AgentModelConfig)>,
}

/// The names of the configured agents.
pub open spec fn agent_names(s: Seq<(String, AgentModelConfig)>) -> Seq<Seq<char>> {
    s.map_values(|e: (String, AgentModelConfig)| e.0@)
}

/// The position of the agent named `name`.
pub open spec fn agent_index(s: Seq<(String, AgentModelConfig)>, name: Seq<char>) -> Option<int> {
    first_index(agent_names(s), |n: Seq<char>| n == name)
}

/// The message for an agent that is not configured.
pub open spec fn msg_unknown_agent(name: Seq<char>) -> Seq<char> {
    "Unknown agent '"@ + name + "' in agents.v1.json"@
}

/// `r` is what looking up agent `name` in the loaded configuration gives: the
/// load error, the agent's configuration, or the unknown-agent error.
pub open spec fn agent_outcome(r: Result<AgentModelConfig, AetherError>, loaded: Result<AgentsConfigFile, AetherError>, name: Seq<char>) -> bool {
    match loaded {
        Err(e) => r == Err::<AgentModelConfig, AetherError>(e),
        Ok(c) => match agent_index(c.agents@, name) {
            Some(i) => r matches Ok(a) && a@ == c.agents@[i].1@,
            None => r matches Err(AetherError::OperationFailed(m)) && m@ == msg_unknown_agent(name),
        },
    }
}

impl AgentsConfigFile {
    /// Accepts the agents configuration read from `path`: `parsed` is what parsing
    /// the file gave (the configuration, or the parser's message). A file that does
    /// not parse, or whose `schema_version` is not 1, is refused.
    pub fn load(path: &str, parsed: Result<AgentsConfigFile, String>) -> (r: Result<AgentsConfigFile, AetherError>)
        ensures
            match parsed {
                Err(e) => r matches Err(AetherError::OperationFailed(m)) && m@ == msg_invalid_config("agents"@, path@, e@),
                Ok(c) => if c.schema_version == 1 {
                    r == Ok::<AgentsConfigFile, AetherError>(c)
                } else {
                    r matches Err(AetherError::OperationFailed(m)) && m@ == msg_schema("agents"@, c.schema_version, path@)
                },
            },
    {
        match parsed {
            Err(e) => Err(invalid_config("agents", path, e.as_str())),
            Ok(c) => {
                if c.schema_version != 1 {
                    Err(unsupported_schema("agents", c.schema_version, path))
                } else {
                    Ok(c)
                }
            },
        }
    }

    /// The configuration of agent `name`.
    pub fn agent(&self, name: &str) -> (r: Result<&AgentModelConfig, AetherError>)
        ensures
            match agent_index(self.agents@, name@) {
                Some(i) => r matches Ok(a) && a@ == self.agents@[i].1@,
                None => r matches Err(AetherError::OperationFailed(m)) && m@ == msg_unknown_agent(name@),
            },
    {
        let ghost names = agent_names(self.agents@);
        let mut i: usize = 0;
        while i < self.agents.len()
            invariant
                i <= self.agents.len(),
                names == agent_names(self.agents@),
                forall|j: int| 0 <= j < i ==> (#[trigger] names[j]) != name@,
            decreases self.agents.len() - i,
        {
            assert(names[i as int] == self.agents@[i as int].0@);
            if str_eq(self.agents[i].0.as_str(), name) {
                proof {
                    lemma_first_index(names, |n: Seq<char>| n == name@, i as int);
                }
                return Ok(&self.agents[i].1);
            }
            i = i + 1;
        }
        proof {
            lemma_first_index_none(names, |n: Seq<char>| n == name@);
        }
        let mut m = owned("Unknown agent '");
        push_str(&mut m, name);
        push_str(&mut m, "' in agents.v1.json");
        Err(AetherError::OperationFailed(m))
    }
}

/// The configuration of agent `name`, from the loaded agents configuration; a load
/// error is passed on.
pub fn load_agent_config(loaded: Result<AgentsConfigFile, AetherError>, name: &str) -> (r: Result<AgentModelConfig, AetherError>)
    ensures
        agent_outcome(r, loaded, name@),
{
    match loaded {
        Err(e) => Err(e),
        Ok(cfg) => match cfg.agent(name) {
            Ok(a) => Ok(a.duplicate()),
            Err(e) => Err(e),
        },
    }
}

/// The LLM call serving the planner agent.
#[derive(Debug, Clone)]
pub struct PlannerCall {
    config: AgentModelConfig,
    bridge_script: String,
}

/// The LLM call serving the prompter agent.
#[derive(Debug, Clone)]
pub struct PrompterCall {
    config: AgentModelConfig,
    bridge_script: String,
}

/// `r` is the call built for agent `name`: the agent's configuration comes first,
/// then the bridge script; the first failure is the error.
pub open spec fn call_outcome(
    r: Result<(AgentModelConfig, String), AetherError>,
    agents: Result<AgentsConfigFile, AetherError>,
    name: Seq<char>,
    bridge_script: Result<String, AetherError>,
) -> bool {
    match agents {
        Err(e) => r == Err::<(AgentModelConfig, String), AetherError>(e),
        Ok(c) => match agent_index(c.agents@, name) {
            None => r matches Err(AetherError::OperationFailed(m)) && m@ == msg_unknown_agent(name),
            Some(i) => match bridge_script {
                Err(e) => r == Err::<(AgentModelConfig, String), AetherError>(e),
                Ok(s) => r matches Ok((a, t)) && a@ == c.agents@[i].1@ && t@ == s@,
            },
        },
    }
}

fn build_call(agents: Result<AgentsConfigFile, AetherError>, name: &str, bridge_script: Result<String, AetherError>) -> (r: Result<(AgentModelConfig, String), AetherError>)
    ensures
        call_outcome(r, agents, name@, bridge_script),
{
    let config = match load_agent_config(agents, name) {
        Ok(c) => c,
        Err(e) => return Err(e),
    };
    match bridge_script {
        Ok(s) => Ok((config, s)),
        Err(e) => Err(e),
    }
}

impl PlannerCall {
    /// The agent configuration this call uses.
    pub closed spec fn config_view(&self) -> AgentView {
        self.config@
    }

    /// The bridge script this call runs.
    pub closed spec fn script(&self) -> Seq<char> {
        self.bridge_script@
    }

    /// The planner call, from the loaded agents configuration and the resolved
    /// bridge script.
    pub fn new(agents: Result<AgentsConfigFile, AetherError>, bridge_script: Result<String, AetherError>) -> (r: Result<PlannerCall, AetherError>)
        ensures
            match agents {
                Err(e) => r == Err::<PlannerCall, AetherError>(e),
                Ok(c) => match agent_index(c.agents@, "planner"@) {
                    None => r matches Err(AetherError::OperationFailed(m)) && m@ == msg_unknown_agent("planner"@),
                    Some(i) => match bridge_script {
                        Err(e) => r == Err::<PlannerCall, AetherError>(e),
                        Ok(s) => r matches Ok(p) && p.config_view() == c.agents@[i].1@ && p.script() == s@,
                    },
                },
            },
    {
        match build_call(agents, "planner", bridge_script) {
            Ok((config, bridge_script)) => Ok(PlannerCall { config, bridge_script }),
            Err(e) => Err(e),
        }
    }

    /// The agent configuration this call uses.
    pub fn config(&self) -> (r: &AgentModelConfig)
        ensures
            r@ == self.config_view(),
    {
        &self.config
    }

    /// The bridge script this call runs.
    pub fn bridge_script(&self) -> (r: &String)
        ensures
            r@ == self.script(),
    {
        &self.bridge_script
    }
}

impl PrompterCall {
    /// The agent configuration this call uses.
    pub closed spec fn config_view(&self) -> AgentView {
        self.config@
    }

    /// The bridge script this call runs.
    pub closed spec fn script(&self) -> Seq<char> {
        self.bridge_script@
    }

    /// The prompter call, from the loaded agents configuration and the resolved
    /// bridge script.
    pub fn new(agents: Result<AgentsConfigFile, AetherError>, bridge_script: Result<String, AetherError>) -> (r: Result<PrompterCall, AetherError>)
        ensures
            match agents {
                Err(e) => r == Err::<PrompterCall, AetherError>(e),
                Ok(c) => match agent_index(c.agents@, "prompter"@) {
                    None => r matches Err(AetherError::OperationFailed(m)) && m@ == msg_unknown_agent("prompter"@),
                    Some(i) => match bridge_script {
                        Err(e) => r == Err::<PrompterCall, AetherError>(e),
                        Ok(s) => r matches Ok(p) && p.config_view() == c.agents@[i].1@ && p.script() == s@,
                    },
                },
            },
    {
        match build_call(agents, "prompter", bridge_script) {
            Ok((config, bridge_script)) => Ok(PrompterCall { config, bridge_script }),
            Err(e) => Err(e),
        }
    }

    /// The agent configuration this call uses.
    pub fn config(&self) -> (r: &AgentModelConfig)
        ensures
            r@ == self.config_view(),
    {
        &self.config
    }

    /// The bridge script this call runs.
    pub fn bridge_script(&self) -> (r: &String)
        ensures
            r@ == self.script(),
    {
        &self.bridge_script
    }
}

/// The planner LLM is on when `AETHER_PLANNER_LLM` is `1`, `true` or `on`;
/// `value` is the variable's value, if set.
pub fn planner_llm_enabled(value: Option<&str>) -> (r: bool)
    ensures
        r == (value matches Some(v) && (v@ == "1"@ || v@ == "true"@ || v@ == "on"@)),
{
    match value {
        Some(v) => str_eq(v, "1") || str_eq(v, "true") || str_eq(v, "on"),
        None => false,
    }
}

/// The prompter LLM is on unless `AETHER_PROMPTER_LLM` is `0`, `false` or `off`;
/// `value` is the variable's value, if set.
pub fn prompter_llm_enabled(value: Option<&str>) -> (r: bool)
    ensures
        r == !(value matches Some(v) && (v@ == "0"@ || v@ == "false"@ || v@ == "off"@)),
{
    match value {
        Some(v) => !(str_eq(v, "0") || str_eq(v, "false") || str_eq(v, "off")),
        None => true,
    }
}


// ---------------------------------------------------------------------------
// Chat completions
// ---------------------------------------------------------------------------

/// A tool call in a chat completion: its id if given, the tool's name and its
/// arguments as JSON text.
#[derive(Debug, Clone)]
pub struct ChatToolCall {
    pub id: Option<String>,
    pub name: String,
    pub arguments: String,
}

/// The message of one choice of a chat completion.
#[derive(Debug, Clone)]
pub struct ChatMessage {
    pub content: Option<String>,
    pub tool_calls: Option<Vec<ChatToolCall>>,
}

/// A tool call the language model made, with its arguments as JSON text.
#[derive(Debug, Clone)]
pub struct ToolCallResult {
    pub id: String,
    pub name: String,
    pub arguments: String,
}

/// What the language model answered: tool calls, or text.
#[derive(Debug, Clone)]
pub enum LlmTurnOutcome {
    ToolCalls(Vec<ToolCallResult>),
    Text(String),
}

/// The name given to the message `serde_json` gives for a text that is not a JSON
/// document; none for one that is.
pub uninterp spec fn json_error_message(text: Seq<char>) -> Option<Seq<char>>;

/// The error `serde_json::from_str::<Value>` reports for `text`, as text; none when
/// `text` is a JSON document.
#[verifier::external_body]
pub(crate) fn json_error(text: &str) -> (r: Option<String>)
    ensures
        crate::dsl::opt_view(r) == json_error_message(text@),
{
    match serde_json::from_str::<serde_json::Value>(text) {
        Ok(_) => None,
        Err(e) => Some(format!("{}", e)),
    }
}

/// The id of the tool call at position `i`: its own, or `call_<i>`.
pub open spec fn call_id(c: ChatToolCall, i: int) -> Seq<char> {
    match c.id {
        Some(x) => x@,
        None => "call_"@ + crate::text::decimal(i as nat),
    }
}

/// The tool calls of a message that has any: the first whose arguments are not a
/// JSON document refuses the answer.
pub open spec fn calls_outcome(calls: Seq<ChatToolCall>) -> Result<Seq<(Seq<char>, Seq<char>, Seq<char>)>, Seq<char>> {
    match first_index(calls, |c: ChatToolCall| json_error_message(c.arguments@) is Some) {
        Some(i) => Err("Tool args parse ("@ + calls[i].name@ + "): "@ + json_error_message(calls[i].arguments@)->0),
        None => Ok(Seq::new(calls.len(), |i: int| (call_id(calls[i], i), calls[i].name@, calls[i].arguments@))),
    }
}

/// `s` holds only white space.
pub open spec fn all_space(s: Seq<char>) -> bool {
    forall|i: int| 0 <= i < s.len() ==> crate::text::is_white_space(#[trigger] s[i])
}

/// What a chat completion answered, from the messages of its choices: the first
/// choice's tool calls when it has some, else its text when it is not blank.
pub open spec fn chat_outcome(choices: Seq<ChatMessage>, r: Result<LlmTurnOutcome, AetherError>) -> bool {
    if choices.len() == 0 {
        r matches Err(AetherError::OperationFailed(m)) && m@ == "Chat completion: empty choices"@
    } else {
        let msg = choices[0];
        if msg.tool_calls is Some && msg.tool_calls->0@.len() > 0 {
            match calls_outcome(msg.tool_calls->0@) {
                Err(m) => r matches Err(AetherError::OperationFailed(x)) && x@ == m,
                Ok(v) => r matches Ok(LlmTurnOutcome::ToolCalls(out)) && out@.len() == v.len() && forall|i: int|
                    0 <= i < v.len() ==> ((#[trigger] out@[i]).id@, out@[i].name@, out@[i].arguments@) == v[i],
            }
        } else if msg.content is Some && !all_space(msg.content->0@) {
            r matches Ok(LlmTurnOutcome::Text(t)) && t@ == msg.content->0@
        } else {
            r matches Err(AetherError::OperationFailed(m)) && m@ == "Chat completion: no tool_calls and no content"@
        }
    }
}

/// Reads the answer of a chat completion from the messages of its choices.
pub fn parse_chat_choices(choices: &Vec<ChatMessage>) -> (r: Result<LlmTurnOutcome, AetherError>)
    ensures
        chat_outcome(choices@, r),
{
    if choices.len() == 0 {
        return Err(AetherError::OperationFailed(owned("Chat completion: empty choices")));
    }
    let msg = &choices[0];
    if let Some(calls) = &msg.tool_calls {
        if calls.len() > 0 {
            let mut out: Vec<ToolCallResult> = Vec::new();
            let mut i: usize = 0;
            while i < calls.len()
                invariant
                    choices@.len() > 0,
                    choices@[0].tool_calls is Some,
                    choices@[0].tool_calls->0@ == calls@,
                    i <= calls.len(),
                    out@.len() == i,
                    forall|j: int| 0 <= j < i ==> json_error_message((#[trigger] calls@[j]).arguments@) is None,
                    forall|j: int| 0 <= j < i ==> ((#[trigger] out@[j]).id@, out@[j].name@, out@[j].arguments@) == (call_id(calls@[j], j), calls@[j].name@, calls@[j].arguments@),
                decreases calls.len() - i,
            {
                let c = &calls[i];
                match json_error(c.arguments.as_str()) {
                    Some(e) => {
                        proof {
                            lemma_first_index(calls@, |c: ChatToolCall| json_error_message(c.arguments@) is Some, i as int);
                        }
                        let mut m = owned("Tool args parse (");
                        push_str(&mut m, c.name.as_str());
                        push_str(&mut m, "): ");
                        push_str(&mut m, e.as_str());
                        return Err(AetherError::OperationFailed(m));
                    },
                    None => {},
                }
                let id = match &c.id {
                    Some(x) => x.clone(),
                    None => {
                        let mut x = owned("call_");
                        let d = crate::text::u64_decimal(i as u64);
                        push_str(&mut x, d.as_str());
                        x
                    },
                };
                out.push(ToolCallResult { id, name: c.name.clone(), arguments: c.arguments.clone() });
                i = i + 1;
            }
            proof {
                lemma_first_index_none(calls@, |c: ChatToolCall| json_error_message(c.arguments@) is Some);
            }
            return Ok(LlmTurnOutcome::ToolCalls(out));
        }
    }
    if let Some(c) = &msg.content {
        let cs = crate::text::chars_of(c.as_str());
        let mut k: usize = 0;
        while k < cs.len()
            invariant
                choices@.len() > 0,
                choices@[0].content is Some,
                choices@[0].content->0@ == c@,
                !(choices@[0].tool_calls is Some && choices@[0].tool_calls->0@.len() > 0),
                cs@ == c@,
                k <= cs.len(),
                forall|j: int| 0 <= j < k ==> crate::text::is_white_space(#[trigger] cs@[j]),
            decreases cs.len() - k,
        {
            if !crate::text::char_is_whitespace(cs[k]) {
                return Ok(LlmTurnOutcome::Text(c.clone()));
            }
            k = k + 1;
        }
    }
    Err(AetherError::OperationFailed(owned("Chat completion: no tool_calls and no content")))
}

} // verus!
