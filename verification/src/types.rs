//! The shared data model: conversation roles, messages, tool calls, the tool
//! registry entry, and token usage counts.

use vstd::prelude::*;
use crate::json::{Json, JsonV, wf_json};

verus! {

/// Who a message speaks for.
#[derive(Clone, Copy, Debug, PartialEq, Eq, Structural)]
pub enum Role {
    System,
    User,
    Assistant,
    Tool,
}

/// A tool invocation requested by the model.
#[derive(Debug)]
pub struct ToolCall {
    pub id: String,
    pub name: String,
    pub input: Json,
}

/// The mathematical shape of a tool call.
pub struct ToolCallV {
    pub id: Seq<char>,
    pub name: Seq<char>,
    pub input: JsonV,
}

impl View for ToolCall {
    type V = ToolCallV;

    open spec fn view(&self) -> ToolCallV {
        ToolCallV { id: self.id@, name: self.name@, input: self.input@ }
    }
}

/// The views of a sequence of tool calls.
pub open spec fn views_of_calls(s: Seq<ToolCall>) -> Seq<ToolCallV> {
    Seq::new(s.len(), |i: int| s[i]@)
}

impl ToolCall {
    /// A structurally identical copy of this call.
    pub fn dup(&self) -> (r: ToolCall)
        ensures
            r@ == self@,
    {
        ToolCall { id: self.id.clone(), name: self.name.clone(), input: self.input.dup() }
    }
}

/// Copies a list of tool calls.
pub fn dup_calls(calls: &Vec<ToolCall>) -> (r: Vec<ToolCall>)
    ensures
        views_of_calls(r@) == views_of_calls(calls@),
{
    let mut out: Vec<ToolCall> = Vec::new();
    let mut i: usize = 0;
    while i < calls.len()
        invariant
            i <= calls@.len(),
            out@.len() == i,
            forall|j: int| 0 <= j < i ==> (#[trigger] out@[j])@ == calls@[j]@,
        decreases calls@.len() - i,
    {
        let c = calls[i].dup();
        out.push(c);
        i += 1;
    }
    proof {
        assert(views_of_calls(out@) =~= views_of_calls(calls@));
    }
    out
}

/// One entry of the conversation.
#[derive(Debug)]
pub struct Message {
    pub role: Role,
    pub content: String,
    pub thinking: Option<String>,
    pub tool_call_id: Option<String>,
    pub tool_calls: Vec<ToolCall>,
}

/// The mathematical shape of a message.
pub struct MessageV {
    pub role: Role,
    pub content: Seq<char>,
    pub thinking: Option<Seq<char>>,
    pub tool_call_id: Option<Seq<char>>,
    pub tool_calls: Seq<ToolCallV>,
}

/// The view of an optional string.
pub open spec fn view_opt_str(o: Option<String>) -> Option<Seq<char>> {
    match o {
        Some(s) => Some(s@),
        None => None,
    }
}

impl View for Message {
    type V = MessageV;

    open spec fn view(&self) -> MessageV {
        MessageV {
            role: self.role,
            content: self.content@,
            thinking: view_opt_str(self.thinking),
            tool_call_id: view_opt_str(self.tool_call_id),
            tool_calls: views_of_calls(self.tool_calls@),
        }
    }
}

/// Every tool-call input in the message is a well-formed JSON value.
pub open spec fn wf_message(m: MessageV) -> bool {
    forall|i: int| 0 <= i < m.tool_calls.len() ==> wf_json(#[trigger] m.tool_calls[i].input)
}

/// The views of a sequence of messages.
pub open spec fn views_of_messages(s: Seq<Message>) -> Seq<MessageV> {
    Seq::new(s.len(), |i: int| s[i]@)
}

impl Message {
    /// A message with no thinking text, back-reference, or tool calls.
    pub fn plain(role: Role, content: String) -> (r: Message)
        ensures
            r@ == (MessageV {
                role,
                content: content@,
                thinking: None,
                tool_call_id: None,
                tool_calls: Seq::empty(),
            }),
            wf_message(r@),
    {
        let m = Message { role, content, thinking: None, tool_call_id: None, tool_calls: Vec::new() };
        proof {
            assert(views_of_calls(m.tool_calls@) =~= Seq::<ToolCallV>::empty());
        }
        m
    }

    /// A structurally identical copy of this message.
    pub fn dup(&self) -> (r: Message)
        ensures
            r@ == self@,
    {
        Message {
            role: self.role,
            content: self.content.clone(),
            thinking: match &self.thinking {
                Some(s) => Some(s.clone()),
                None => None,
            },
            tool_call_id: match &self.tool_call_id {
                Some(s) => Some(s.clone()),
                None => None,
            },
            tool_calls: dup_calls(&self.tool_calls),
        }
    }

    /// A tool-role message answering the call named by `call_id`.
    pub fn tool_reply(content: String, call_id: String) -> (r: Message)
        ensures
            r@ == (MessageV {
                role: Role::Tool,
                content: content@,
                thinking: None,
                tool_call_id: Some(call_id@),
                tool_calls: Seq::empty(),
            }),
            wf_message(r@),
    {
        let m = Message {
            role: Role::Tool,
            content,
            thinking: None,
            tool_call_id: Some(call_id),
            tool_calls: Vec::new(),
        };
        proof {
            assert(views_of_calls(m.tool_calls@) =~= Seq::<ToolCallV>::empty());
        }
        m
    }
}

/// A tool the model may call.
#[derive(Debug)]
pub struct Tool {
    pub name: String,
    pub description: String,
    pub input_schema: Json,
}

/// The mathematical shape of a tool.
pub struct ToolV {
    pub name: Seq<char>,
    pub description: Seq<char>,
    pub input_schema: JsonV,
}

impl View for Tool {
    type V = ToolV;

    open spec fn view(&self) -> ToolV {
        ToolV {
            name: self.name@,
            description: self.description@,
            input_schema: self.input_schema@,
        }
    }
}

/// The views of a sequence of tools.
pub open spec fn views_of_tools(s: Seq<Tool>) -> Seq<ToolV> {
    Seq::new(s.len(), |i: int| s[i]@)
}

/// Token counts reported by one provider reply.
#[derive(Clone, Copy, Debug, PartialEq, Eq, Structural)]
pub struct Usage {
    pub prompt_tokens: i32,
    pub completion_tokens: i32,
    pub total_tokens: i32,
}

/// Running token totals for a session.
#[derive(Clone, Copy, Debug, PartialEq, Eq, Structural)]
pub struct TokenUsage {
    pub prompt: i32,
    pub completion: i32,
    pub total: i32,
}

/// `a + b` clamped to the `i32` range.
pub open spec fn sat_add_i32(a: int, b: int) -> int {
    if a + b > 0x7fff_ffff {
        0x7fff_ffff
    } else if a + b < -0x8000_0000 {
        -0x8000_0000
    } else {
        a + b
    }
}

/// A running total grown by a reported count: a negative report counts as
/// zero, so the totals never decrease, and the sum saturates at the `i32`
/// ceiling.
pub open spec fn add_count_i32(total: int, reported: int) -> int {
    sat_add_i32(
        total,
        if reported < 0 {
            0
        } else {
            reported
        },
    )
}

impl TokenUsage {
    /// A zeroed counter.
    pub fn zero() -> (r: TokenUsage)
        ensures
            r == (TokenUsage { prompt: 0, completion: 0, total: 0 }),
    {
        TokenUsage { prompt: 0, completion: 0, total: 0 }
    }

    /// The counter grown by one reply's usage. The totals are monotone: a
    /// negative reported count is ignored, and each field saturates at the
    /// `i32` ceiling.
    pub fn plus(self, u: Usage) -> (r: TokenUsage)
        ensures
            r == (TokenUsage {
                prompt: add_count_i32(self.prompt as int, u.prompt_tokens as int) as i32,
                completion: add_count_i32(self.completion as int, u.completion_tokens as int) as i32,
                total: add_count_i32(self.total as int, u.total_tokens as int) as i32,
            }),
            r.prompt >= self.prompt,
            r.completion >= self.completion,
            r.total >= self.total,
    {
        TokenUsage {
            prompt: sat_add_i32_exec(self.prompt, if u.prompt_tokens < 0 { 0 } else { u.prompt_tokens }),
            completion: sat_add_i32_exec(self.completion, if u.completion_tokens < 0 { 0 } else { u.completion_tokens }),
            total: sat_add_i32_exec(self.total, if u.total_tokens < 0 { 0 } else { u.total_tokens }),
        }
    }
}

fn sat_add_i32_exec(a: i32, b: i32) -> (r: i32)
    ensures
        r as int == sat_add_i32(a as int, b as int),
{
    let s: i64 = a as i64 + b as i64;
    if s > 0x7fff_ffff {
        0x7fff_ffff
    } else if s < -0x8000_0000 {
        -0x8000_0000
    } else {
        s as i32
    }
}

impl Default for TokenUsage {
    /// A zeroed counter.
    fn default() -> (r: TokenUsage)
        ensures
            r == (TokenUsage { prompt: 0, completion: 0, total: 0 }),
    {
        TokenUsage { prompt: 0, completion: 0, total: 0 }
    }
}

/// What one shell command execution produced.
#[derive(Debug)]
pub struct BashResult {
    pub stdout: String,
    pub stderr: String,
    pub code: i32,
}

} // verus!
