//! The conversation orchestrator. It owns the message history and the
//! session token counters, drives one provider round trip at a time, decides
//! what each requested tool call means under the policy, and records tool
//! results back into the history. Running the approved command and asking
//! the human are the caller's part; the decisions and all bookkeeping are
//! here.

use vstd::prelude::*;
use crate::config::{LlmSettings, PolicyConfig, SchemaType, view_opt_string};
use crate::json::{Json, JsonV, lookup_field, pretty_json};
use crate::policy_bash::{
    PolicyResult, check_policy, spec_check_policy, views_of_strings,
};
use crate::providers::{ChatResponse, http_post};
use crate::strutil::{contains_seq, contains_chars, str_to_chars, chars_to_string, dec_int};
use crate::tools::bash_tool;
use crate::types::{
    Message, MessageV, Role, Tool, ToolV, ToolCall, ToolCallV, TokenUsage, Usage, BashResult,
    views_of_calls, views_of_messages, views_of_tools, dup_calls, add_count_i32,
};

verus! {

/// A running conversation with one provider: the full message history, the
/// session's token totals, the provider settings, the tool registry, and
/// the command policy.
pub struct Agent {
    pub settings: LlmSettings,
    pub messages: Vec<Message>,
    pub session_tokens: TokenUsage,
    pub tools: Vec<Tool>,
    pub policy: PolicyConfig,
    pub workspace_root: String,
}

/// The mathematical shape of a session.
pub struct AgentV {
    pub messages: Seq<MessageV>,
    pub tokens: TokenUsage,
    pub schema_type: SchemaType,
    pub provider: Seq<char>,
    pub model: Seq<char>,
    pub temperature_milli: int,
    pub max_tokens: int,
    pub api_key: Option<Seq<char>>,
    pub base_url: Seq<char>,
    pub workspace_root: Seq<char>,
    pub tools: Seq<ToolV>,
    pub default_action: Seq<char>,
    pub deny_patterns: Seq<Seq<char>>,
    pub auto_commands: Seq<Seq<char>>,
}

impl View for Agent {
    type V = AgentV;

    open spec fn view(&self) -> AgentV {
        AgentV {
            messages: views_of_messages(self.messages@),
            tokens: self.session_tokens,
            schema_type: self.settings.schema_type,
            provider: self.settings.provider@,
            model: self.settings.model@,
            temperature_milli: self.settings.temperature_milli as int,
            max_tokens: self.settings.max_tokens as int,
            api_key: view_opt_string(self.settings.api_key),
            base_url: self.settings.base_url@,
            workspace_root: self.workspace_root@,
            tools: views_of_tools(self.tools@),
            default_action: self.policy.default_action@,
            deny_patterns: views_of_strings(self.policy.deny_patterns@),
            auto_commands: views_of_strings(self.policy.auto_commands@),
        }
    }
}

/// The history invariant: it starts with exactly one system message,
/// created once and never removed.
pub open spec fn agent_inv(a: AgentV) -> bool {
    &&& a.messages.len() >= 1
    &&& a.messages[0].role == Role::System
    &&& forall|i: int| 1 <= i < a.messages.len() ==> (#[trigger] a.messages[i]).role != Role::System
}

/// How one turn step ended: the model is done, or it asked for tool calls.
#[derive(Debug)]
pub enum TurnOutcome {
    Done,
    ToolCalls(Vec<ToolCall>),
}

/// What the policy and the call's shape say should happen to one requested
/// tool call.
#[derive(Debug)]
pub enum ToolAction {
    UnknownTool,
    NoCommand,
    Run { command: String },
    AskUser { command: String },
    Deny { command: String },
}

/// What actually happened to one requested tool call.
#[derive(Debug)]
pub enum ToolOutcome {
    UnknownTool { name: String },
    NoCommand,
    Denied,
    Rejected,
    Ran { command: String, result: BashResult },
}

/// The tokens counter after absorbing one reply's usage.
pub open spec fn tokens_after(t: TokenUsage, usage: Option<Usage>) -> TokenUsage {
    match usage {
        Some(u) => TokenUsage {
            prompt: add_count_i32(t.prompt as int, u.prompt_tokens as int) as i32,
            completion: add_count_i32(t.completion as int, u.completion_tokens as int) as i32,
            total: add_count_i32(t.total as int, u.total_tokens as int) as i32,
        },
        None => t,
    }
}

/// The session counters never decrease, whatever a reply reports.
pub proof fn lemma_tokens_monotone(t: TokenUsage, usage: Option<Usage>)
    ensures
        tokens_after(t, usage).prompt >= t.prompt,
        tokens_after(t, usage).completion >= t.completion,
        tokens_after(t, usage).total >= t.total,
{
}

/// An error that some JSON body decodes to under the given protocol and
/// status: the shared taxonomy of status and embedded-error failures.
pub open spec fn decode_err_of(schema: SchemaType, status: int, raw: Seq<char>) -> bool {
    match schema {
        SchemaType::OpenAI => exists|jv: JsonV|
            #[trigger] crate::openai::spec_decode_openai(status, jv) == Err::<
                crate::openai::OaShape,
                Seq<char>,
            >(raw),
        SchemaType::Anthropic => exists|jv: JsonV|
            #[trigger] crate::anthropic::spec_decode_anthropic(status, jv) == Err::<
                crate::anthropic::AnthDecoded,
                Seq<char>,
            >(raw),
    }
}

/// A reply that some JSON body decodes to under the given protocol and
/// status: what connects an appended assistant message back to the wire.
pub open spec fn decodable_reply(
    schema: SchemaType,
    status: int,
    respv: crate::providers::ChatResponseV,
) -> bool {
    match schema {
        SchemaType::OpenAI => exists|jv: JsonV|
            crate::json::wf_json(jv) && ((#[trigger] crate::openai::spec_decode_openai(
                status,
                jv,
            )) matches Ok(shape) && crate::openai::relate_oa(shape, respv)),
        SchemaType::Anthropic => exists|jv: JsonV|
            crate::json::wf_json(jv) && ((#[trigger] crate::anthropic::spec_decode_anthropic(
                status,
                jv,
            )) matches Ok(d) && respv == crate::anthropic::anth_response_v(d)),
    }
}

/// One successful provider round trip: exactly one assistant message is
/// appended, the usage is added, nothing else moves, and the outcome says
/// whether that message carries tool calls.
pub open spec fn stepped(pre: AgentV, post: AgentV, outcome: TurnOutcome, calls_out: Seq<
    ToolCallV,
>) -> bool {
    exists|mv: MessageV, usage: Option<Usage>|
        {
            &&& #[trigger] tokens_after(pre.tokens, usage) == post.tokens
            &&& #[trigger] pre.messages.push(mv) == post.messages
            &&& mv.role == Role::Assistant
            &&& mv.tool_call_id is None
            &&& post == (AgentV {
                messages: pre.messages.push(mv),
                tokens: tokens_after(pre.tokens, usage),
                ..pre
            })
            &&& ((outcome is Done) <==> mv.tool_calls.len() == 0)
            &&& ((outcome is ToolCalls) ==> calls_out == #[trigger] mv.tool_calls)
        }
}

impl Agent {
    /// A fresh session: the history holds the system prompt alone, the
    /// token counters are zero, and the registry holds the one `bash` tool.
    pub fn new(
        settings: LlmSettings,
        system_prompt: String,
        policy: PolicyConfig,
        workspace_root: String,
    ) -> (r: Agent)
        ensures
            r@.messages == seq![
                MessageV {
                    role: Role::System,
                    content: system_prompt@,
                    thinking: None,
                    tool_call_id: None,
                    tool_calls: Seq::empty(),
                },
            ],
            r@.tokens == (TokenUsage { prompt: 0, completion: 0, total: 0 }),
            r@.tools.len() == 1,
            r@.tools[0].name == "bash"@,
            r@.tools[0].input_schema == crate::tools::bash_tool_schema_v(),
            agent_inv(r@),
    {
        let mut messages: Vec<Message> = Vec::new();
        messages.push(Message::plain(Role::System, system_prompt));
        let mut tools: Vec<Tool> = Vec::new();
        tools.push(bash_tool());
        let a = Agent {
            settings,
            messages,
            session_tokens: TokenUsage::zero(),
            tools,
            policy,
            workspace_root,
        };
        proof {
            assert(views_of_messages(a.messages@) =~= seq![a.messages@[0]@]);
            assert(views_of_tools(a.tools@) =~= seq![a.tools@[0]@]);
        }
        a
    }

    /// Appends one user message; nothing else moves.
    pub fn add_user_message(&mut self, content: String)
        ensures
            final(self)@ == (AgentV {
                messages: old(self)@.messages.push(
                    MessageV {
                        role: Role::User,
                        content: content@,
                        thinking: None,
                        tool_call_id: None,
                        tool_calls: Seq::empty(),
                    },
                ),
                ..old(self)@
            }),
            agent_inv(old(self)@) ==> agent_inv(final(self)@),
    {
        let m = Message::plain(Role::User, content);
        let ghost pre = views_of_messages(self.messages@);
        let ghost mv = m@;
        self.messages.push(m);
        proof {
            assert(views_of_messages(self.messages@) =~= pre.push(mv));
        }
    }

    /// Resets the conversation to its system message alone. The token
    /// counters stay: they are per session, not per conversation.
    pub fn clear(&mut self)
        requires
            old(self).messages@.len() >= 1,
        ensures
            final(self)@ == (AgentV {
                messages: old(self)@.messages.take(1),
                ..old(self)@
            }),
            agent_inv(old(self)@) ==> agent_inv(final(self)@),
    {
        let ghost pre = views_of_messages(self.messages@);
        self.messages.truncate(1);
        proof {
            assert(views_of_messages(self.messages@) =~= pre.take(1));
        }
    }

    /// The session's token totals so far.
    pub fn get_tokens(&self) -> (r: TokenUsage)
        ensures
            r == self@.tokens,
    {
        self.session_tokens
    }

    /// The configured model name.
    pub fn get_model(&self) -> (r: String)
        ensures
            r@ == self@.model,
    {
        self.settings.model.clone()
    }

    /// Applies one provider reply, given as the HTTP status and body text:
    /// on success the assistant message is appended and the usage counted;
    /// on any failure the history is left exactly as it was and a
    /// categorized error is returned.
    pub fn apply_provider_response(&mut self, status: u16, body: &str) -> (r: Result<
        TurnOutcome,
        String,
    >)
        ensures
            r is Err ==> final(self)@ == old(self)@,
            r matches Err(e) ==> exists|raw: Seq<char>|
                e@ == #[trigger] spec_map_provider_error(raw) && (raw
                    == crate::providers::invalid_response_msg() || decode_err_of(
                    old(self)@.schema_type,
                    status as int,
                    raw,
                )),
            r matches Ok(outcome) ==> stepped(
                old(self)@,
                final(self)@,
                outcome,
                match outcome {
                    TurnOutcome::ToolCalls(cs) => views_of_calls(cs@),
                    TurnOutcome::Done => Seq::empty(),
                },
            ),
            r is Ok ==> exists|respv: crate::providers::ChatResponseV|
                #[trigger] decodable_reply(old(self)@.schema_type, status as int, respv)
                    && final(self)@.messages == old(self)@.messages.push(respv.message)
                    && final(self)@.tokens == tokens_after(old(self)@.tokens, respv.usage),
            old(self)@.schema_type == SchemaType::OpenAI ==> forall|jv: JsonV|
                (crate::json::wf_json(jv) && body@ == #[trigger] crate::json::ser_json(jv))
                    ==> (match crate::openai::spec_decode_openai(status as int, jv) {
                    Err(e) => r matches Err(s2) && s2@ == spec_map_provider_error(e),
                    Ok(_) => r is Ok,
                }),
            old(self)@.schema_type == SchemaType::Anthropic ==> forall|jv: JsonV|
                (crate::json::wf_json(jv) && body@ == #[trigger] crate::json::ser_json(jv))
                    ==> (match crate::anthropic::spec_decode_anthropic(status as int, jv) {
                    Err(e) => r matches Err(s2) && s2@ == spec_map_provider_error(e),
                    Ok(_) => r is Ok,
                }),
            agent_inv(old(self)@) ==> agent_inv(final(self)@),
    {
        let decoded: Result<ChatResponse, String> = match self.settings.schema_type {
            SchemaType::OpenAI => crate::openai::decode_openai(status, body),
            SchemaType::Anthropic => crate::anthropic::decode_anthropic(status, body),
        };
        let resp = match decoded {
            Ok(resp) => resp,
            Err(e) => {
                return Err(map_provider_error(e));
            },
        };
        match resp.usage {
            Some(u) => {
                self.session_tokens = self.session_tokens.plus(u);
            },
            None => {},
        }
        let outcome = if resp.message.tool_calls.len() == 0 {
            TurnOutcome::Done
        } else {
            TurnOutcome::ToolCalls(dup_calls(&resp.message.tool_calls))
        };
        let ghost pre = views_of_messages(self.messages@);
        let ghost rv = resp@;
        let ghost mv = resp.message@;
        let ghost usage = resp.usage;
        self.messages.push(resp.message);
        proof {
            assert(views_of_messages(self.messages@) =~= pre.push(mv));
            assert(self@ == (AgentV {
                messages: old(self)@.messages.push(mv),
                tokens: tokens_after(old(self)@.tokens, usage),
                ..old(self)@
            }));
            assert(decodable_reply(old(self)@.schema_type, status as int, rv));
        }
        Ok(outcome)
    }

    /// Performs one complete provider round trip: build the request from the
    /// whole history and the tool registry, post it once, and apply the
    /// reply. On any failure — bad base URL, transport, or decode — the
    /// history is left exactly as it was.
    pub fn run_turn_step(&mut self) -> (r: Result<TurnOutcome, String>)
        ensures
            r is Err ==> final(self)@ == old(self)@,
            r matches Err(e) ==> exists|raw: Seq<char>|
                e@ == #[trigger] spec_map_provider_error(raw),
            r matches Ok(outcome) ==> stepped(
                old(self)@,
                final(self)@,
                outcome,
                match outcome {
                    TurnOutcome::ToolCalls(cs) => views_of_calls(cs@),
                    TurnOutcome::Done => Seq::empty(),
                },
            ),
            r is Ok ==> exists|status: int, respv: crate::providers::ChatResponseV|
                #[trigger] decodable_reply(old(self)@.schema_type, status, respv)
                    && final(self)@.messages == old(self)@.messages.push(respv.message)
                    && final(self)@.tokens == tokens_after(old(self)@.tokens, respv.usage),
            agent_inv(old(self)@) ==> agent_inv(final(self)@),
    {
        let parts = match self.settings.schema_type {
            SchemaType::OpenAI => crate::openai::encode_request(
                &self.settings,
                &self.messages,
                &self.tools,
            ),
            SchemaType::Anthropic => crate::anthropic::encode_request(
                &self.settings,
                &self.messages,
                &self.tools,
            ),
        };
        let parts = match parts {
            Ok(p) => p,
            Err(e) => {
                return Err(map_provider_error(e));
            },
        };
        let (status, body) = match http_post(
            parts.url.as_str(),
            &parts.headers,
            parts.body.as_str(),
        ) {
            Ok(x) => x,
            Err(e) => {
                return Err(map_provider_error(e));
            },
        };
        self.apply_provider_response(status, body.as_str())
    }

    /// What should happen to one requested tool call: an unknown tool or a
    /// missing command is answered diagnostically; a command is run,
    /// queued for approval, or denied as [`check_policy`] decides.
    pub fn plan_tool_call(&self, call: &ToolCall) -> (r: ToolAction)
        ensures
            call@.name != "bash"@ ==> r is UnknownTool,
            call@.name == "bash"@ ==> !(r is UnknownTool),
            (call@.name == "bash"@ && call@.input is Obj) ==> view_action(r) == spec_plan_command(
                extract_command_of_obj(call@.input),
                self@.default_action,
                self@.deny_patterns,
                self@.auto_commands,
            ),
            r matches ToolAction::Run { command } ==> spec_check_policy(
                command@,
                self@.default_action,
                self@.deny_patterns,
                self@.auto_commands,
            ) == PolicyResult::Auto,
            r matches ToolAction::AskUser { command } ==> spec_check_policy(
                command@,
                self@.default_action,
                self@.deny_patterns,
                self@.auto_commands,
            ) == PolicyResult::Ask,
            r matches ToolAction::Deny { command } ==> spec_check_policy(
                command@,
                self@.default_action,
                self@.deny_patterns,
                self@.auto_commands,
            ) == PolicyResult::Deny,
    {
        if !crate::strutil::eq_str(call.name.as_str(), "bash") {
            return ToolAction::UnknownTool;
        }
        let command = extract_command(&call.input);
        self.plan_command(command)
    }

    /// The decision for an extracted command string.
    pub fn plan_command(&self, command: String) -> (r: ToolAction)
        ensures
            view_action(r) == spec_plan_command(
                command@,
                self@.default_action,
                self@.deny_patterns,
                self@.auto_commands,
            ),
    {
        if command.as_str().unicode_len() == 0 {
            return ToolAction::NoCommand;
        }
        match check_policy(command.as_str(), &self.policy) {
            PolicyResult::Deny => ToolAction::Deny { command },
            PolicyResult::Auto => ToolAction::Run { command },
            PolicyResult::Ask => ToolAction::AskUser { command },
        }
    }

    /// Records what became of one tool call as a tool-role message answering
    /// it, with the diagnostic or result text the conversation carries on
    /// with; nothing else moves.
    pub fn record_tool_outcome(&mut self, call_id: &str, outcome: &ToolOutcome)
        ensures
            final(self)@ == (AgentV {
                messages: old(self)@.messages.push(
                    MessageV {
                        role: Role::Tool,
                        content: spec_outcome_text(view_outcome(*outcome)),
                        thinking: None,
                        tool_call_id: Some(call_id@),
                        tool_calls: Seq::empty(),
                    },
                ),
                ..old(self)@
            }),
            agent_inv(old(self)@) ==> agent_inv(final(self)@),
    {
        let content = outcome_text(outcome);
        let m = Message::tool_reply(content, call_id.to_owned());
        let ghost pre = views_of_messages(self.messages@);
        let ghost mv = m@;
        self.messages.push(m);
        proof {
            assert(views_of_messages(self.messages@) =~= pre.push(mv));
        }
    }
}

/// The mathematical shape of a tool-call decision.
pub enum ToolActionV {
    UnknownTool,
    NoCommand,
    Run(Seq<char>),
    AskUser(Seq<char>),
    Deny(Seq<char>),
}

pub open spec fn view_action(a: ToolAction) -> ToolActionV {
    match a {
        ToolAction::UnknownTool => ToolActionV::UnknownTool,
        ToolAction::NoCommand => ToolActionV::NoCommand,
        ToolAction::Run { command } => ToolActionV::Run(command@),
        ToolAction::AskUser { command } => ToolActionV::AskUser(command@),
        ToolAction::Deny { command } => ToolActionV::Deny(command@),
    }
}

/// The decision ladder applied to an extracted command: an empty command is
/// answered diagnostically, anything else goes to the policy.
pub open spec fn spec_plan_command(
    command: Seq<char>,
    default_action: Seq<char>,
    deny: Seq<Seq<char>>,
    auto: Seq<Seq<char>>,
) -> ToolActionV {
    if command.len() == 0 {
        ToolActionV::NoCommand
    } else {
        match spec_check_policy(command, default_action, deny, auto) {
            PolicyResult::Deny => ToolActionV::Deny(command),
            PolicyResult::Auto => ToolActionV::Run(command),
            PolicyResult::Ask => ToolActionV::AskUser(command),
        }
    }
}

/// The `command` field of an object-shaped tool input, or nothing.
pub open spec fn extract_command_of_obj(v: JsonV) -> Seq<char> {
    match lookup_field(v, "command"@) {
        Some(JsonV::Str(c)) => c,
        _ => Seq::empty(),
    }
}

/// Pulls the command string out of a tool call's input. An object is asked
/// for its `command` field; a string is first re-read as JSON in case it
/// wraps such an object, and otherwise stands for itself; anything else
/// yields nothing.
pub fn extract_command(input: &Json) -> (r: String)
    ensures
        input@ is Obj ==> r@ == extract_command_of_obj(input@),
        !(input@ is Obj) && !(input@ is Str) ==> r@ == Seq::<char>::empty(),
        input@ matches JsonV::Str(raw) ==> forall|jv: JsonV|
            (crate::json::wf_json(jv) && raw == #[trigger] crate::json::ser_json(jv)) ==> r@ == (
            match lookup_field(jv, "command"@) {
                Some(JsonV::Str(c)) => c,
                _ => raw,
            }),
{
    match input {
        Json::Str(raw) => {
            match crate::json::parse_json_chars(raw) {
                Some(parsed) => match parsed.get("command") {
                    Some(c) => match c.as_str() {
                        Some(s) => chars_to_string(s),
                        None => chars_to_string(raw),
                    },
                    None => chars_to_string(raw),
                },
                None => chars_to_string(raw),
            }
        },
        Json::Obj(_) => {
            match input.get("command") {
                Some(c) => match c.as_str() {
                    Some(s) => chars_to_string(s),
                    None => String::new(),
                },
                None => String::new(),
            }
        },
        _ => String::new(),
    }
}

/// What the conversation is told about one tool call's outcome.
pub enum ToolOutcomeV {
    UnknownTool { name: Seq<char> },
    NoCommand,
    Denied,
    Rejected,
    Ran { command: Seq<char>, stdout: Seq<char>, stderr: Seq<char>, code: int },
}

pub open spec fn view_outcome(o: ToolOutcome) -> ToolOutcomeV {
    match o {
        ToolOutcome::UnknownTool { name } => ToolOutcomeV::UnknownTool { name: name@ },
        ToolOutcome::NoCommand => ToolOutcomeV::NoCommand,
        ToolOutcome::Denied => ToolOutcomeV::Denied,
        ToolOutcome::Rejected => ToolOutcomeV::Rejected,
        ToolOutcome::Ran { command, result } => ToolOutcomeV::Ran {
            command: command@,
            stdout: result.stdout@,
            stderr: result.stderr@,
            code: result.code as int,
        },
    }
}

/// The payload recorded for an executed command: its text, exit code, and
/// both streams, as a pretty-printed JSON object with its keys in sorted
/// order.
pub open spec fn ran_payload_v(
    command: Seq<char>,
    stdout: Seq<char>,
    stderr: Seq<char>,
    code: int,
) -> JsonV {
    JsonV::Obj(
        seq![
            ("command"@, JsonV::Str(command)),
            ("exitCode"@, JsonV::Num(dec_int(code))),
            ("stderr"@, JsonV::Str(stderr)),
            ("stdout"@, JsonV::Str(stdout)),
        ],
    )
}

/// The text a tool-role message carries for each outcome.
pub open spec fn spec_outcome_text(o: ToolOutcomeV) -> Seq<char> {
    match o {
        ToolOutcomeV::UnknownTool { name } => "Unknown tool: "@ + name,
        ToolOutcomeV::NoCommand => "No command provided."@,
        ToolOutcomeV::Denied => "Command denied by policy."@,
        ToolOutcomeV::Rejected => "User rejected command."@,
        ToolOutcomeV::Ran { command, stdout, stderr, code } => pretty_json(
            ran_payload_v(command, stdout, stderr, code),
            Seq::empty(),
        ),
    }
}

fn outcome_text(o: &ToolOutcome) -> (r: String)
    ensures
        r@ == spec_outcome_text(view_outcome(*o)),
{
    match o {
        ToolOutcome::UnknownTool { name } => {
            let mut s = String::new();
            s.append("Unknown tool: ");
            s.append(name.as_str());
            proof {
                assert(s@ =~= "Unknown tool: "@ + name@);
            }
            s
        },
        ToolOutcome::NoCommand => "No command provided.".to_owned(),
        ToolOutcome::Denied => "Command denied by policy.".to_owned(),
        ToolOutcome::Rejected => "User rejected command.".to_owned(),
        ToolOutcome::Ran { command, result } => {
            let mut fs: Vec<(Vec<char>, Json)> = Vec::new();
            crate::json::push_field(&mut fs, "command", Json::of_str(command.as_str()));
            crate::json::push_field(
                &mut fs,
                "exitCode",
                Json::of_i64(result.code as i64),
            );
            crate::json::push_field(&mut fs, "stderr", Json::of_str(result.stderr.as_str()));
            crate::json::push_field(&mut fs, "stdout", Json::of_str(result.stdout.as_str()));
            let payload = crate::json::obj_of(fs);
            proof {
                assert(crate::json::views_of_fields(fs@) =~= ran_payload_v(
                    command@,
                    result.stdout@,
                    result.stderr@,
                    result.code as int,
                )->Obj_0);
            }
            crate::json::to_pretty_string(&payload)
        },
    }
}

/// The short category shown for a recognized provider error; anything
/// unrecognized passes through verbatim.
pub open spec fn spec_map_provider_error(e: Seq<char>) -> Seq<char> {
    if contains_seq(e, "401"@) {
        "Invalid API key."@
    } else if contains_seq(e, "429"@) {
        "Rate limit exceeded. Wait and retry."@
    } else if contains_seq(e, "ECONNREFUSED"@) || contains_seq(e, "ENOTFOUND"@) {
        "Network error. Check your connection."@
    } else {
        e
    }
}

/// Categorizes a provider error string for the human.
pub fn map_provider_error(err: String) -> (r: String)
    ensures
        r@ == spec_map_provider_error(err@),
{
    let chars = str_to_chars(err.as_str());
    let needle_401 = str_to_chars("401");
    if contains_chars(&chars, &needle_401) {
        return "Invalid API key.".to_owned();
    }
    let needle_429 = str_to_chars("429");
    if contains_chars(&chars, &needle_429) {
        return "Rate limit exceeded. Wait and retry.".to_owned();
    }
    let needle_refused = str_to_chars("ECONNREFUSED");
    let needle_notfound = str_to_chars("ENOTFOUND");
    if contains_chars(&chars, &needle_refused) || contains_chars(&chars, &needle_notfound) {
        return "Network error. Check your connection.".to_owned();
    }
    err
}

} // verus!
