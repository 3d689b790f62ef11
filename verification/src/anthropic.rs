//! The Anthropic-style chat-completion adapter. System messages leave the
//! turn array and are joined into top-level system blocks, followed by a
//! synthetic block summarizing the tool registry; tool replies ride as
//! `tool_result` blocks inside user messages; assistant tool calls ride as
//! `tool_use` blocks carrying their input verbatim. Cache-control hints mark
//! the system blocks and, unless the provider alias disables it, the most
//! recent non-assistant turn message.

use vstd::prelude::*;
use crate::config::LlmSettings;
use crate::json::{
    Json, JsonV, wf_json, ser_json, pretty_json, lookup_field, lookup_fields, views_of_json,
    views_of_fields, spec_as_i32, milli_lexeme, json_of_milli, obj_of, arr_of, push_field,
    dup_chars,
};
use crate::providers::{
    ChatResponse, ChatResponseV, HttpParts, views_of_headers, push_header, url_join, url_join_ok,
    join_url, status_ok, error_message, status_error_msg, invalid_response_msg,
    get_error_message, status_error_string,
};
use crate::strutil::{
    str_to_chars, chars_to_string, append_chars, chars_eq, eq_str, trim_chars, trim_spec,
    join_chars, join_spec, views_of,
};
use crate::types::{
    Message, MessageV, Role, Tool, ToolV, ToolCall, ToolCallV, Usage, views_of_calls,
    views_of_messages, views_of_tools, wf_message, sat_add_i32,
};

verus! {

/// The base URL with trailing slashes removed and then a trailing `/v1`
/// path segment stripped, so that the fixed endpoint path can be appended.
pub open spec fn trailing_slashes(s: Seq<char>) -> int
    decreases s.len(),
{
    if s.len() == 0 || s.last() != '/' {
        0
    } else {
        1 + trailing_slashes(s.drop_last())
    }
}

pub open spec fn spec_normalize_anthropic(s: Seq<char>) -> Seq<char> {
    let t = s.take(s.len() - trailing_slashes(s));
    if t.len() >= 3 && t.subrange(t.len() - 3, t.len() as int) == "/v1"@ {
        t.take(t.len() - 3)
    } else {
        t
    }
}

proof fn lemma_trailing_slashes(s: Seq<char>)
    ensures
        0 <= trailing_slashes(s) <= s.len(),
        forall|j: int| s.len() - trailing_slashes(s) <= j < s.len() ==> s[j] == '/',
        trailing_slashes(s) < s.len() ==> s[s.len() - trailing_slashes(s) - 1] != '/',
    decreases s.len(),
{
    if s.len() == 0 || s.last() != '/' {
    } else {
        let d = s.drop_last();
        lemma_trailing_slashes(d);
        assert forall|j: int| s.len() - trailing_slashes(s) <= j < s.len() implies s[j]
            == '/' by {
            if j < s.len() - 1 {
                assert(d[j] == s[j]);
            }
        }
        if trailing_slashes(s) < s.len() {
            assert(d[d.len() - trailing_slashes(d) - 1] == s[s.len() - trailing_slashes(s) - 1]);
        }
    }
}

/// Strips trailing slashes and a trailing `/v1` from the configured base
/// URL.
pub fn normalize_anthropic_base_url(base_url: &str) -> (r: String)
    ensures
        r@ == spec_normalize_anthropic(base_url@),
{
    let chars = str_to_chars(base_url);
    let n = chars.len();
    let mut e = n;
    loop
        invariant
            e <= n,
            n == chars@.len(),
            forall|j: int| e <= j < n ==> chars@[j] == '/',
        ensures
            e <= n,
            forall|j: int| e <= j < n ==> chars@[j] == '/',
            e == 0 || chars@[e - 1] != '/',
        decreases e,
    {
        if e > 0 && chars[e - 1] == '/' {
            e -= 1;
        } else {
            break;
        }
    }
    proof {
        lemma_trailing_slashes(chars@);
        let p = trailing_slashes(chars@);
        if n - e < p {
            assert(chars@[e - 1] == '/');
            assert(false);
        }
        if n - e > p {
            assert(chars@[n - p - 1] != '/');
            assert(false);
        }
        assert(e == chars@.len() - trailing_slashes(chars@));
    }
    let t = crate::strutil::subvec(&chars, 0, e);
    proof {
        assert(t@ =~= chars@.take(e as int));
    }
    if t.len() >= 3 && t[t.len() - 3] == '/' && t[t.len() - 2] == 'v' && t[t.len() - 1] == '1' {
        proof {
            let tv = t@;
            reveal_strlit("/v1");
            assert(tv.subrange(tv.len() - 3, tv.len() as int) =~= "/v1"@);
        }
        let r = crate::strutil::subvec(&t, 0, t.len() - 3);
        proof {
            assert(r@ =~= t@.take(t@.len() - 3));
        }
        chars_to_string(&r)
    } else {
        proof {
            let tv = t@;
            reveal_strlit("/v1");
            if tv.len() >= 3 && tv.subrange(tv.len() - 3, tv.len() as int) == "/v1"@ {
                assert(tv.subrange(tv.len() - 3, tv.len() as int)[0] == tv[tv.len() - 3]);
                assert(tv.subrange(tv.len() - 3, tv.len() as int)[1] == tv[tv.len() - 2]);
                assert(tv.subrange(tv.len() - 3, tv.len() as int)[2] == tv[tv.len() - 1]);
                assert(false);
            }
        }
        chars_to_string(&t)
    }
}

/// The heading put above the serialized tool registry in the synthetic
/// system block; it gets blank-line spacing when other system text precedes
/// it.
pub open spec fn spec_format_tools_summary(has_system: bool, tools_summary: Seq<char>) -> Seq<
    char,
> {
    if has_system {
        "\n\n## Available Tools\n\n"@ + tools_summary
    } else {
        "## Available Tools\n\n"@ + tools_summary
    }
}

pub fn format_tools_summary(has_system: bool, tools_summary: &str) -> (r: String)
    ensures
        r@ == spec_format_tools_summary(has_system, tools_summary@),
{
    let mut s = String::new();
    if has_system {
        s.append("\n\n## Available Tools\n\n");
    } else {
        s.append("## Available Tools\n\n");
    }
    s.append(tools_summary);
    proof {
        if has_system {
            assert(s@ =~= "\n\n## Available Tools\n\n"@ + tools_summary@);
        } else {
            assert(s@ =~= "## Available Tools\n\n"@ + tools_summary@);
        }
    }
    s
}

/// The `cache_control` field marking a block as server-cacheable.
pub open spec fn cache_field() -> (Seq<char>, JsonV) {
    ("cache_control"@, JsonV::Obj(seq![("type"@, JsonV::Str("ephemeral"@))]))
}

fn cache_json() -> (r: Json)
    ensures
        r@ == cache_field().1,
{
    let mut fs: Vec<(Vec<char>, Json)> = Vec::new();
    push_field(&mut fs, "type", Json::of_str("ephemeral"));
    let r = obj_of(fs);
    proof {
        assert(views_of_fields(fs@) =~= seq![("type"@, JsonV::Str("ephemeral"@))]);
    }
    r
}

/// A plain text block, optionally cache-marked.
pub open spec fn text_block_v(t: Seq<char>, cached: bool) -> JsonV {
    JsonV::Obj(
        seq![("type"@, JsonV::Str("text"@)), ("text"@, JsonV::Str(t))] + (if cached {
            seq![cache_field()]
        } else {
            Seq::empty()
        }),
    )
}

fn text_block(t: &Vec<char>, cached: bool) -> (r: Json)
    ensures
        r@ == text_block_v(t@, cached),
{
    let mut fs: Vec<(Vec<char>, Json)> = Vec::new();
    push_field(&mut fs, "type", Json::of_str("text"));
    push_field(&mut fs, "text", Json::of_chars(dup_chars(t)));
    if cached {
        push_field(&mut fs, "cache_control", cache_json());
        proof {
            assert(views_of_fields(fs@) =~= seq![
                ("type"@, JsonV::Str("text"@)),
                ("text"@, JsonV::Str(t@)),
            ] + seq![cache_field()]);
        }
    } else {
        proof {
            assert(views_of_fields(fs@) =~= seq![
                ("type"@, JsonV::Str("text"@)),
                ("text"@, JsonV::Str(t@)),
            ] + Seq::<(Seq<char>, JsonV)>::empty());
        }
    }
    obj_of(fs)
}

/// The contents of the conversation's system messages, in order.
pub open spec fn system_texts(ms: Seq<MessageV>) -> Seq<Seq<char>>
    decreases ms.len(),
{
    if ms.len() == 0 {
        Seq::empty()
    } else {
        (if ms[0].role == Role::System {
            seq![ms[0].content]
        } else {
            Seq::empty()
        }) + system_texts(ms.drop_first())
    }
}

proof fn lemma_system_texts_snoc(ms: Seq<MessageV>, m: MessageV)
    ensures
        system_texts(ms.push(m)) == system_texts(ms) + (if m.role == Role::System {
            seq![m.content]
        } else {
            Seq::<Seq<char>>::empty()
        }),
    decreases ms.len(),
{
    if ms.len() == 0 {
        assert(ms.push(m)[0] == m);
        assert(ms.push(m).drop_first() =~= Seq::<MessageV>::empty());
        assert(system_texts(Seq::<MessageV>::empty()) == Seq::<Seq<char>>::empty());
        assert(system_texts(ms.push(m)) =~= system_texts(ms) + (if m.role == Role::System {
            seq![m.content]
        } else {
            Seq::<Seq<char>>::empty()
        }));
    } else {
        assert(ms.push(m)[0] == ms[0]);
        assert(ms.push(m).drop_first() =~= ms.drop_first().push(m));
        lemma_system_texts_snoc(ms.drop_first(), m);
        assert(system_texts(ms.push(m)) =~= system_texts(ms) + (if m.role == Role::System {
            seq![m.content]
        } else {
            Seq::<Seq<char>>::empty()
        }));
    }
}

/// The conversation without its system messages: what goes into the turn
/// array.
pub open spec fn filter_non_system(ms: Seq<MessageV>) -> Seq<MessageV>
    decreases ms.len(),
{
    if ms.len() == 0 {
        Seq::empty()
    } else {
        (if ms[0].role != Role::System {
            seq![ms[0]]
        } else {
            Seq::empty()
        }) + filter_non_system(ms.drop_first())
    }
}

proof fn lemma_filter_non_system_snoc(ms: Seq<MessageV>, m: MessageV)
    ensures
        filter_non_system(ms.push(m)) == filter_non_system(ms) + (if m.role != Role::System {
            seq![m]
        } else {
            Seq::<MessageV>::empty()
        }),
    decreases ms.len(),
{
    if ms.len() == 0 {
        assert(ms.push(m)[0] == m);
        assert(ms.push(m).drop_first() =~= Seq::<MessageV>::empty());
        assert(filter_non_system(Seq::<MessageV>::empty()) == Seq::<MessageV>::empty());
        assert(filter_non_system(ms.push(m)) =~= filter_non_system(ms) + (if m.role
            != Role::System {
            seq![m]
        } else {
            Seq::<MessageV>::empty()
        }));
    } else {
        assert(ms.push(m)[0] == ms[0]);
        assert(ms.push(m).drop_first() =~= ms.drop_first().push(m));
        lemma_filter_non_system_snoc(ms.drop_first(), m);
        assert(filter_non_system(ms.push(m)) =~= filter_non_system(ms) + (if m.role
            != Role::System {
            seq![m]
        } else {
            Seq::<MessageV>::empty()
        }));
    }
}

/// The index of the last message that is not assistant-spoken, or -1: the
/// one turn message that may carry a cache mark.
pub open spec fn last_non_assistant(ms: Seq<MessageV>) -> int
    decreases ms.len(),
{
    if ms.len() == 0 {
        -1
    } else if ms.last().role != Role::Assistant {
        ms.len() - 1
    } else {
        last_non_assistant(ms.drop_last())
    }
}

proof fn lemma_last_non_assistant(ms: Seq<MessageV>)
    ensures
        -1 <= last_non_assistant(ms) < ms.len(),
        forall|j: int| last_non_assistant(ms) < j < ms.len() ==> (#[trigger] ms[j]).role
            == Role::Assistant,
        last_non_assistant(ms) >= 0 ==> ms[last_non_assistant(ms)].role != Role::Assistant,
    decreases ms.len(),
{
    if ms.len() == 0 {
    } else if ms.last().role != Role::Assistant {
    } else {
        let d = ms.drop_last();
        lemma_last_non_assistant(d);
        assert forall|j: int| last_non_assistant(ms) < j < ms.len() implies (#[trigger] ms[j]).role
            == Role::Assistant by {
            if j < ms.len() - 1 {
                assert(d[j] == ms[j]);
            } else {
                assert(ms[j] == ms.last());
            }
        }
        if last_non_assistant(ms) >= 0 {
            assert(d[last_non_assistant(d)] == ms[last_non_assistant(ms)]);
        }
    }
}

/// A `tool_result` block answering the call `id`, carrying the reply text.
pub open spec fn tool_result_block_v(
    id: Option<Seq<char>>,
    content: Seq<char>,
    cached: bool,
) -> JsonV {
    JsonV::Obj(
        seq![("type"@, JsonV::Str("tool_result"@))] + (match id {
            Some(i) => seq![("tool_use_id"@, JsonV::Str(i))],
            None => Seq::empty(),
        }) + seq![("content"@, JsonV::Str(content))] + (if cached {
            seq![cache_field()]
        } else {
            Seq::empty()
        }),
    )
}

/// A `tool_use` block carrying one call's id, name, and input verbatim.
pub open spec fn tool_use_block_v(c: ToolCallV) -> JsonV {
    JsonV::Obj(
        seq![
            ("type"@, JsonV::Str("tool_use"@)),
            ("id"@, JsonV::Str(c.id)),
            ("name"@, JsonV::Str(c.name)),
            ("input"@, c.input),
        ],
    )
}

pub open spec fn tool_use_blocks_v(calls: Seq<ToolCallV>) -> Seq<JsonV> {
    Seq::new(calls.len(), |i: int| tool_use_block_v(calls[i]))
}

/// One turn message on the wire, with `cache` saying whether this is the
/// message that carries the cache mark.
pub open spec fn anth_message_v(m: MessageV, cache: bool) -> JsonV {
    if m.role == Role::Tool {
        JsonV::Obj(
            seq![
                ("role"@, JsonV::Str("user"@)),
                (
                    "content"@,
                    JsonV::Arr(seq![tool_result_block_v(m.tool_call_id, m.content, cache)]),
                ),
            ],
        )
    } else if m.role == Role::Assistant {
        if m.tool_calls.len() > 0 {
            JsonV::Obj(
                seq![
                    ("role"@, JsonV::Str("assistant"@)),
                    (
                        "content"@,
                        JsonV::Arr(
                            (if m.content.len() > 0 {
                                seq![text_block_v(m.content, false)]
                            } else {
                                Seq::empty()
                            }) + tool_use_blocks_v(m.tool_calls),
                        ),
                    ),
                ],
            )
        } else {
            JsonV::Obj(
                seq![("role"@, JsonV::Str("assistant"@)), ("content"@, JsonV::Str(m.content))],
            )
        }
    } else if cache && m.role == Role::User {
        JsonV::Obj(
            seq![
                ("role"@, JsonV::Str("user"@)),
                ("content"@, JsonV::Arr(seq![text_block_v(m.content, true)])),
            ],
        )
    } else {
        JsonV::Obj(
            seq![
                ("role"@, JsonV::Str(crate::openai::role_str(m.role))),
                ("content"@, JsonV::Str(m.content)),
            ],
        )
    }
}

/// The whole turn array: each filtered message, the most recent
/// non-assistant one cache-marked when caching is enabled.
pub open spec fn turn_messages_v(fms: Seq<MessageV>, enable_cache: bool) -> Seq<JsonV> {
    Seq::new(
        fms.len(),
        |i: int| anth_message_v(fms[i], enable_cache && i == last_non_assistant(fms)),
    )
}

/// One tool-registry entry on the wire (also the shape summarized in the
/// synthetic system block).
pub open spec fn anth_tool_v(t: ToolV) -> JsonV {
    JsonV::Obj(
        seq![
            ("name"@, JsonV::Str(t.name)),
            ("description"@, JsonV::Str(t.description)),
            ("input_schema"@, t.input_schema),
        ],
    )
}

pub open spec fn anth_tools_v(ts: Seq<ToolV>) -> Seq<JsonV> {
    Seq::new(ts.len(), |i: int| anth_tool_v(ts[i]))
}

/// The pretty-printed registry summary placed in the synthetic system
/// block.
pub open spec fn tools_summary_text(ts: Seq<ToolV>) -> Seq<char> {
    pretty_json(JsonV::Arr(anth_tools_v(ts)), Seq::empty())
}

/// The system block list: the joined, trimmed system text when there is
/// any, then the tool summary, both cache-marked.
pub open spec fn system_blocks_v(ms: Seq<MessageV>, ts: Seq<ToolV>) -> Seq<JsonV> {
    let joined = trim_spec(join_spec(system_texts(ms), "\n\n"@));
    let base: Seq<JsonV> = if joined.len() > 0 {
        seq![text_block_v(joined, true)]
    } else {
        Seq::empty()
    };
    base.push(
        text_block_v(spec_format_tools_summary(base.len() > 0, tools_summary_text(ts)), true),
    )
}

/// The whole request body.
pub open spec fn anthropic_request_v(
    model: Seq<char>,
    temperature_milli: int,
    max_tokens: int,
    msgs: Seq<MessageV>,
    tools: Seq<ToolV>,
    enable_cache: bool,
) -> JsonV {
    JsonV::Obj(
        seq![
            ("model"@, JsonV::Str(model)),
            ("max_tokens"@, JsonV::Num(crate::strutil::dec_int(max_tokens))),
            ("temperature"@, JsonV::Num(milli_lexeme(temperature_milli))),
            ("system"@, JsonV::Arr(system_blocks_v(msgs, tools))),
            ("messages"@, JsonV::Arr(turn_messages_v(filter_non_system(msgs), enable_cache))),
        ] + (if tools.len() == 0 {
            Seq::<(Seq<char>, JsonV)>::empty()
        } else {
            seq![("tools"@, JsonV::Arr(anth_tools_v(tools)))]
        }) + seq![
            ("tool_choice"@, JsonV::Obj(seq![("type"@, JsonV::Str("auto"@))])),
            ("stream"@, JsonV::Bool(false)),
        ],
    )
}

/// The headers sent with the request: JSON content, the protocol version,
/// the API key when one is configured, and the prompt-caching beta header
/// for the two aliases that take it.
pub open spec fn anthropic_headers(api_key: Option<Seq<char>>, beta: bool) -> Seq<
    (Seq<char>, Seq<char>),
> {
    seq![
        ("Content-Type"@, "application/json"@),
        ("anthropic-version"@, "2023-06-01"@),
    ] + (match api_key {
        Some(k) => seq![("x-api-key"@, k)],
        None => Seq::empty(),
    }) + (if beta {
        seq![("anthropic-beta"@, "prompt-caching-2024-07-31"@)]
    } else {
        Seq::empty()
    })
}

fn encode_tool_anth(t: &Tool) -> (r: Json)
    ensures
        r@ == anth_tool_v(t@),
{
    let mut fs: Vec<(Vec<char>, Json)> = Vec::new();
    push_field(&mut fs, "name", Json::of_str(t.name.as_str()));
    push_field(&mut fs, "description", Json::of_str(t.description.as_str()));
    push_field(&mut fs, "input_schema", t.input_schema.dup());
    let r = obj_of(fs);
    proof {
        assert(views_of_fields(fs@) =~= seq![
            ("name"@, JsonV::Str(t.name@)),
            ("description"@, JsonV::Str(t.description@)),
            ("input_schema"@, t.input_schema@),
        ]);
    }
    r
}

fn encode_tools_anth(tools: &Vec<Tool>) -> (r: Vec<Json>)
    ensures
        views_of_json(r@) == anth_tools_v(views_of_tools(tools@)),
{
    let mut tjs: Vec<Json> = Vec::new();
    let mut i: usize = 0;
    while i < tools.len()
        invariant
            i <= tools@.len(),
            tjs@.len() == i,
            forall|j: int| 0 <= j < i ==> (#[trigger] tjs@[j])@ == anth_tool_v(tools@[j]@),
        decreases tools@.len() - i,
    {
        let tj = encode_tool_anth(&tools[i]);
        tjs.push(tj);
        i += 1;
    }
    proof {
        assert(views_of_json(tjs@) =~= anth_tools_v(views_of_tools(tools@)));
    }
    tjs
}

fn encode_tool_use(c: &ToolCall) -> (r: Json)
    ensures
        r@ == tool_use_block_v(c@),
{
    let mut fs: Vec<(Vec<char>, Json)> = Vec::new();
    push_field(&mut fs, "type", Json::of_str("tool_use"));
    push_field(&mut fs, "id", Json::of_str(c.id.as_str()));
    push_field(&mut fs, "name", Json::of_str(c.name.as_str()));
    push_field(&mut fs, "input", c.input.dup());
    let r = obj_of(fs);
    proof {
        assert(views_of_fields(fs@) =~= seq![
            ("type"@, JsonV::Str("tool_use"@)),
            ("id"@, JsonV::Str(c.id@)),
            ("name"@, JsonV::Str(c.name@)),
            ("input"@, c.input@),
        ]);
    }
    r
}

fn encode_anth_message(m: &Message, cache: bool) -> (r: Json)
    ensures
        r@ == anth_message_v(m@, cache),
{
    if m.role == Role::Tool {
        let mut block_fs: Vec<(Vec<char>, Json)> = Vec::new();
        push_field(&mut block_fs, "type", Json::of_str("tool_result"));
        match &m.tool_call_id {
            Some(id) => {
                push_field(&mut block_fs, "tool_use_id", Json::of_str(id.as_str()));
            },
            None => {},
        }
        push_field(&mut block_fs, "content", Json::of_str(m.content.as_str()));
        if cache {
            push_field(&mut block_fs, "cache_control", cache_json());
        }
        let block = obj_of(block_fs);
        proof {
            assert(views_of_fields(block_fs@) =~= seq![("type"@, JsonV::Str("tool_result"@))] + (
            match m@.tool_call_id {
                Some(i) => seq![("tool_use_id"@, JsonV::Str(i))],
                None => Seq::<(Seq<char>, JsonV)>::empty(),
            }) + seq![("content"@, JsonV::Str(m.content@))] + (if cache {
                seq![cache_field()]
            } else {
                Seq::<(Seq<char>, JsonV)>::empty()
            }));
        }
        let mut arr: Vec<Json> = Vec::new();
        arr.push(block);
        let content = arr_of(arr);
        proof {
            assert(views_of_json(arr@) =~= seq![tool_result_block_v(
                m@.tool_call_id,
                m@.content,
                cache,
            )]);
        }
        let mut fs: Vec<(Vec<char>, Json)> = Vec::new();
        push_field(&mut fs, "role", Json::of_str("user"));
        push_field(&mut fs, "content", content);
        let r = obj_of(fs);
        proof {
            assert(views_of_fields(fs@) =~= anth_message_v(m@, cache)->Obj_0);
        }
        r
    } else if m.role == Role::Assistant {
        if m.tool_calls.len() > 0 {
            let mut arr: Vec<Json> = Vec::new();
            if m.content.as_str().unicode_len() > 0 {
                let c = str_to_chars(m.content.as_str());
                arr.push(text_block(&c, false));
            }
            let ghost head = views_of_json(arr@);
            proof {
                if m@.content.len() > 0 {
                    assert(head =~= seq![text_block_v(m@.content, false)]);
                } else {
                    assert(head =~= Seq::<JsonV>::empty());
                }
            }
            let mut i: usize = 0;
            while i < m.tool_calls.len()
                invariant
                    i <= m.tool_calls@.len(),
                    arr@.len() == head.len() + i,
                    views_of_json(arr@).take(head.len() as int) == head,
                    forall|j: int|
                        0 <= j < i ==> views_of_json(arr@)[head.len() + j] == tool_use_block_v(
                            #[trigger] m.tool_calls@[j]@,
                        ),
                decreases m.tool_calls@.len() - i,
            {
                let b = encode_tool_use(&m.tool_calls[i]);
                let ghost snap = views_of_json(arr@);
                arr.push(b);
                i += 1;
                proof {
                    assert(views_of_json(arr@) =~= snap.push(b@));
                    assert(views_of_json(arr@).take(head.len() as int) =~= snap.take(
                        head.len() as int,
                    ));
                }
            }
            let content = arr_of(arr);
            proof {
                assert(views_of_json(arr@) =~= head + tool_use_blocks_v(
                    views_of_calls(m.tool_calls@),
                ));
            }
            let mut fs: Vec<(Vec<char>, Json)> = Vec::new();
            push_field(&mut fs, "role", Json::of_str("assistant"));
            push_field(&mut fs, "content", content);
            let r = obj_of(fs);
            proof {
                assert(views_of_fields(fs@) =~= anth_message_v(m@, cache)->Obj_0);
            }
            r
        } else {
            let mut fs: Vec<(Vec<char>, Json)> = Vec::new();
            push_field(&mut fs, "role", Json::of_str("assistant"));
            push_field(&mut fs, "content", Json::of_str(m.content.as_str()));
            let r = obj_of(fs);
            proof {
                assert(views_of_fields(fs@) =~= anth_message_v(m@, cache)->Obj_0);
            }
            r
        }
    } else if cache && m.role == Role::User {
        let c = str_to_chars(m.content.as_str());
        let block = text_block(&c, true);
        let mut arr: Vec<Json> = Vec::new();
        arr.push(block);
        let content = arr_of(arr);
        proof {
            assert(views_of_json(arr@) =~= seq![text_block_v(m@.content, true)]);
        }
        let mut fs: Vec<(Vec<char>, Json)> = Vec::new();
        push_field(&mut fs, "role", Json::of_str("user"));
        push_field(&mut fs, "content", content);
        let r = obj_of(fs);
        proof {
            assert(views_of_fields(fs@) =~= anth_message_v(m@, cache)->Obj_0);
        }
        r
    } else {
        let mut fs: Vec<(Vec<char>, Json)> = Vec::new();
        let role = crate::openai::role_string(m.role);
        push_field(&mut fs, "role", Json::of_str(role.as_str()));
        push_field(&mut fs, "content", Json::of_str(m.content.as_str()));
        let r = obj_of(fs);
        proof {
            assert(views_of_fields(fs@) =~= anth_message_v(m@, cache)->Obj_0);
        }
        r
    }
}

/// Builds the complete HTTP request for one Anthropic-style round trip, or
/// reports a base URL that does not parse. Caching of the latest turn
/// message is enabled for every provider alias but the one that rejects it.
pub fn encode_request(settings: &LlmSettings, messages: &Vec<Message>, tools: &Vec<Tool>) -> (r:
    Result<HttpParts, String>)
    ensures
        r is Ok <==> url_join_ok(
            spec_normalize_anthropic(settings.base_url@),
            "v1/messages"@,
        ),
        r matches Ok(parts) ==> parts.url@ == url_join(
            spec_normalize_anthropic(settings.base_url@),
            "v1/messages"@,
        ) && parts.body@ == ser_json(
            anthropic_request_v(
                settings.model@,
                settings.temperature_milli as int,
                settings.max_tokens as int,
                views_of_messages(messages@),
                views_of_tools(tools@),
                settings.provider@ != "minimax"@,
            ),
        ) && views_of_headers(parts.headers@) == anthropic_headers(
            crate::config::view_opt_string(settings.api_key),
            settings.provider@ == "anthropic"@ || settings.provider@ == "minimax"@,
        ),
        r matches Err(e) ==> e@ == "Invalid base_url"@,
{
    let base = normalize_anthropic_base_url(settings.base_url.as_str());
    let url = match join_url(base.as_str(), "v1/messages") {
        Some(u) => u,
        None => {
            return Err("Invalid base_url".to_owned());
        },
    };
    let ghost msg_views = views_of_messages(messages@);

    // system text: the joined, trimmed contents of the system messages
    let mut sys_parts: Vec<Vec<char>> = Vec::new();
    let mut i: usize = 0;
    while i < messages.len()
        invariant
            i <= messages@.len(),
            msg_views == views_of_messages(messages@),
            views_of(sys_parts@) == system_texts(msg_views.take(i as int)),
        decreases messages@.len() - i,
    {
        let ghost snap = views_of(sys_parts@);
        if messages[i].role == Role::System {
            let c = str_to_chars(messages[i].content.as_str());
            sys_parts.push(c);
            proof {
                assert(views_of(sys_parts@) =~= snap.push(msg_views[i as int].content));
            }
        }
        proof {
            lemma_system_texts_snoc(msg_views.take(i as int), msg_views[i as int]);
            assert(msg_views.take(i + 1) =~= msg_views.take(i as int).push(msg_views[i as int]));
            if messages@[i as int].role != Role::System {
                assert(views_of(sys_parts@) =~= snap + Seq::<Seq<char>>::empty());
            }
        }
        i += 1;
    }
    proof {
        assert(msg_views.take(i as int) =~= msg_views);
    }
    let sep = vec!['\n', '\n'];
    let joined_raw = join_chars(&sys_parts, &sep);
    proof {
        reveal_strlit("\n\n");
        assert(sep@ =~= "\n\n"@);
    }
    let joined = trim_chars(&joined_raw);

    // the system block list: the joined text if any, then the tool summary
    let mut sys_blocks: Vec<Json> = Vec::new();
    let has_system = joined.len() > 0;
    if has_system {
        sys_blocks.push(text_block(&joined, true));
    }
    let tools_json_vec = encode_tools_anth(tools);
    let tools_arr = arr_of(tools_json_vec);
    let summary = crate::json::to_pretty_string(&tools_arr);
    let summary_text = format_tools_summary(has_system, summary.as_str());
    let stc = str_to_chars(summary_text.as_str());
    let ghost base_blocks = views_of_json(sys_blocks@);
    sys_blocks.push(text_block(&stc, true));
    proof {
        let joined_spec = trim_spec(join_spec(system_texts(msg_views), "\n\n"@));
        assert(joined@ == joined_spec);
        if has_system {
            assert(base_blocks =~= seq![text_block_v(joined_spec, true)]);
        } else {
            assert(base_blocks =~= Seq::<JsonV>::empty());
        }
        assert(views_of_json(sys_blocks@) =~= system_blocks_v(
            msg_views,
            views_of_tools(tools@),
        ));
    }
    let system_json = arr_of(sys_blocks);

    // the turn array: non-system messages, the latest non-assistant one
    // cache-marked unless the provider alias disables caching
    let enable_cache = !eq_str(settings.provider.as_str(), "minimax");
    let mut filtered: Vec<Message> = Vec::new();
    let mut i: usize = 0;
    while i < messages.len()
        invariant
            i <= messages@.len(),
            msg_views == views_of_messages(messages@),
            views_of_messages(filtered@) == filter_non_system(msg_views.take(i as int)),
        decreases messages@.len() - i,
    {
        let ghost snap = views_of_messages(filtered@);
        if !(messages[i].role == Role::System) {
            let d = messages[i].dup();
            filtered.push(d);
            proof {
                assert(views_of_messages(filtered@) =~= snap.push(msg_views[i as int]));
            }
        }
        proof {
            lemma_filter_non_system_snoc(msg_views.take(i as int), msg_views[i as int]);
            assert(msg_views.take(i + 1) =~= msg_views.take(i as int).push(msg_views[i as int]));
            if messages@[i as int].role == Role::System {
                assert(views_of_messages(filtered@) =~= snap + Seq::<MessageV>::empty());
            }
        }
        i += 1;
    }
    proof {
        assert(msg_views.take(i as int) =~= msg_views);
    }
    let ghost fviews = views_of_messages(filtered@);

    // the index that may carry the cache mark
    let mut last_na: usize = filtered.len();
    let mut k: usize = filtered.len();
    loop
        invariant
            k <= filtered@.len(),
            last_na <= filtered@.len(),
            fviews == views_of_messages(filtered@),
            forall|j: int| k <= j < fviews.len() ==> (#[trigger] fviews[j]).role == Role::Assistant,
            last_na == filtered@.len(),
        ensures
            k <= filtered@.len(),
            fviews == views_of_messages(filtered@),
            forall|j: int| k <= j < fviews.len() ==> (#[trigger] fviews[j]).role == Role::Assistant,
            k > 0 ==> fviews[k - 1].role != Role::Assistant,
        decreases k,
    {
        if k == 0 {
            break;
        }
        if filtered[k - 1].role == Role::Assistant {
            k -= 1;
        } else {
            break;
        }
    }
    // k - 1 is the last non-assistant index; k == 0 means there is none
    proof {
        lemma_last_non_assistant(fviews);
        let l = last_non_assistant(fviews);
        if k == 0 {
            if l >= 0 {
                assert(fviews[l].role == Role::Assistant);
                assert(false);
            }
        } else {
            if l < k - 1 {
                assert(fviews[k - 1].role == Role::Assistant);
                assert(false);
            }
            if l > k - 1 {
                assert(fviews[l].role == Role::Assistant);
                assert(false);
            }
        }
    }

    let mut turn: Vec<Json> = Vec::new();
    let mut i: usize = 0;
    while i < filtered.len()
        invariant
            i <= filtered@.len(),
            fviews == views_of_messages(filtered@),
            turn@.len() == i,
            k <= filtered@.len(),
            k == 0 ==> last_non_assistant(fviews) == -1,
            k > 0 ==> last_non_assistant(fviews) == k - 1,
            forall|j: int|
                0 <= j < i ==> (#[trigger] turn@[j])@ == anth_message_v(
                    fviews[j],
                    enable_cache && j == last_non_assistant(fviews),
                ),
        decreases filtered@.len() - i,
    {
        let cache = enable_cache && k > 0 && i == k - 1;
        let mj = encode_anth_message(&filtered[i], cache);
        turn.push(mj);
        i += 1;
    }
    let turn_json = arr_of(turn);
    proof {
        assert(views_of_json(turn@) =~= turn_messages_v(
            filter_non_system(msg_views),
            enable_cache,
        ));
    }

    // assemble the request object
    let mut fields: Vec<(Vec<char>, Json)> = Vec::new();
    push_field(&mut fields, "model", Json::of_str(settings.model.as_str()));
    push_field(&mut fields, "max_tokens", Json::of_i64(settings.max_tokens as i64));
    push_field(&mut fields, "temperature", json_of_milli(settings.temperature_milli));
    push_field(&mut fields, "system", system_json);
    push_field(&mut fields, "messages", turn_json);
    if tools.len() > 0 {
        let tjs = encode_tools_anth(tools);
        push_field(&mut fields, "tools", arr_of(tjs));
    }
    let mut choice_fs: Vec<(Vec<char>, Json)> = Vec::new();
    push_field(&mut choice_fs, "type", Json::of_str("auto"));
    let choice = obj_of(choice_fs);
    proof {
        assert(views_of_fields(choice_fs@) =~= seq![("type"@, JsonV::Str("auto"@))]);
    }
    push_field(&mut fields, "tool_choice", choice);
    push_field(&mut fields, "stream", Json::Bool(false));
    let body_json = obj_of(fields);
    proof {
        let req = anthropic_request_v(
            settings.model@,
            settings.temperature_milli as int,
            settings.max_tokens as int,
            msg_views,
            views_of_tools(tools@),
            settings.provider@ != "minimax"@,
        );
        assert(views_of_fields(fields@) =~= req->Obj_0);
        assert(body_json@ == req);
    }
    let body = crate::json::to_json_string(&body_json);

    // headers
    let beta = eq_str(settings.provider.as_str(), "anthropic") || eq_str(
        settings.provider.as_str(),
        "minimax",
    );
    let mut headers: Vec<(String, String)> = Vec::new();
    push_header(&mut headers, "Content-Type", "application/json".to_owned());
    push_header(&mut headers, "anthropic-version", "2023-06-01".to_owned());
    match &settings.api_key {
        Some(key) => {
            push_header(&mut headers, "x-api-key", key.clone());
        },
        None => {},
    }
    if beta {
        push_header(&mut headers, "anthropic-beta", "prompt-caching-2024-07-31".to_owned());
    }
    proof {
        assert(views_of_headers(headers@) =~= anthropic_headers(
            crate::config::view_opt_string(settings.api_key),
            settings.provider@ == "anthropic"@ || settings.provider@ == "minimax"@,
        ));
    }
    Ok(HttpParts { url, headers, body })
}

// ---------------------------------------------------------------------
// decoding

/// What one reply block contributes: thinking text, reply text, a tool
/// call, or nothing.
pub enum BlockOut {
    Think(Option<Seq<char>>),
    Text(Option<Seq<char>>),
    Use(Option<ToolCallV>),
    Other,
}

/// An optional string field of a block: absent or null is none, a string is
/// itself, and anything else is a malformed block.
pub open spec fn opt_str_field(fs: Seq<(Seq<char>, JsonV)>, key: Seq<char>) -> Result<
    Option<Seq<char>>,
    (),
> {
    match lookup_fields(fs, key) {
        None => Ok(None),
        Some(JsonV::Null) => Ok(None),
        Some(JsonV::Str(s)) => Ok(Some(s)),
        Some(_) => Err(()),
    }
}

/// Reads one content block by its `type` tag.
pub open spec fn decode_anth_block(v: JsonV) -> Result<BlockOut, ()> {
    match v {
        JsonV::Obj(fs) => match lookup_fields(fs, "type"@) {
            Some(JsonV::Str(ty)) => if ty == "thinking"@ {
                match opt_str_field(fs, "thinking"@) {
                    Ok(t) => Ok(BlockOut::Think(t)),
                    Err(_) => Err(()),
                }
            } else if ty == "text"@ {
                match opt_str_field(fs, "text"@) {
                    Ok(t) => Ok(BlockOut::Text(t)),
                    Err(_) => Err(()),
                }
            } else if ty == "tool_use"@ {
                match (opt_str_field(fs, "id"@), opt_str_field(fs, "name"@)) {
                    (Ok(id), Ok(name)) => {
                        let input = match lookup_fields(fs, "input"@) {
                            None => None,
                            Some(JsonV::Null) => None,
                            Some(x) => Some(x),
                        };
                        match (id, name, input) {
                            (Some(id), Some(name), Some(input)) => Ok(
                                BlockOut::Use(Some(ToolCallV { id, name, input })),
                            ),
                            _ => Ok(BlockOut::Use(None)),
                        }
                    },
                    _ => Err(()),
                }
            } else {
                Ok(BlockOut::Other)
            },
            _ => Err(()),
        },
        _ => Err(()),
    }
}

/// Folds the content blocks, in order, into the reply's text parts,
/// thinking parts, and tool calls.
pub open spec fn decode_anth_blocks(blocks: Seq<JsonV>) -> Result<
    (Seq<Seq<char>>, Seq<Seq<char>>, Seq<ToolCallV>),
    (),
>
    decreases blocks.len(),
{
    if blocks.len() == 0 {
        Ok((Seq::empty(), Seq::empty(), Seq::empty()))
    } else {
        match decode_anth_block(blocks[0]) {
            Err(e) => Err(e),
            Ok(b) => match decode_anth_blocks(blocks.drop_first()) {
                Err(e) => Err(e),
                Ok((ts, hs, cs)) => Ok(
                    match b {
                        BlockOut::Text(Some(t)) => (seq![t] + ts, hs, cs),
                        BlockOut::Think(Some(h)) => (ts, seq![h] + hs, cs),
                        BlockOut::Use(Some(c)) => (ts, hs, seq![c] + cs),
                        _ => (ts, hs, cs),
                    },
                ),
            },
        }
    }
}

/// Reads the usage object: prompt and completion counts as reported, their
/// sum clamped to the `i32` range as the total.
pub open spec fn decode_anth_usage(v: JsonV) -> Result<Option<Usage>, ()> {
    match lookup_field(v, "usage"@) {
        None => Ok(None),
        Some(JsonV::Null) => Ok(None),
        Some(JsonV::Obj(uf)) => match (
            lookup_fields(uf, "input_tokens"@),
            lookup_fields(uf, "output_tokens"@),
        ) {
            (Some(p), Some(c)) => match (spec_as_i32(p), spec_as_i32(c)) {
                (Some(p), Some(c)) => Ok(
                    Some(
                        Usage {
                            prompt_tokens: p,
                            completion_tokens: c,
                            total_tokens: sat_add_i32(p as int, c as int) as i32,
                        },
                    ),
                ),
                _ => Err(()),
            },
            _ => Err(()),
        },
        Some(_) => Err(()),
    }
}

/// A decoded reply, before it becomes a message.
pub struct AnthDecoded {
    pub content: Seq<char>,
    pub thinking: Option<Seq<char>>,
    pub calls: Seq<ToolCallV>,
    pub usage: Option<Usage>,
}

/// Decodes a whole Anthropic-style reply as a function of the HTTP status
/// and the body's JSON value: the error taxonomy is shared with the other
/// adapter; on success the content blocks are folded in order.
pub open spec fn spec_decode_anthropic(status: int, v: JsonV) -> Result<AnthDecoded, Seq<char>> {
    let em = error_message(v);
    if !status_ok(status) {
        Err(status_error_msg(status, em))
    } else if em is Some {
        Err(em->0)
    } else {
        match lookup_field(v, "content"@) {
            Some(JsonV::Arr(blocks)) => match decode_anth_blocks(blocks) {
                Err(_) => Err(invalid_response_msg()),
                Ok((ts, hs, cs)) => match decode_anth_usage(v) {
                    Err(_) => Err(invalid_response_msg()),
                    Ok(usage) => Ok(
                        AnthDecoded {
                            content: join_spec(ts, Seq::empty()),
                            thinking: if hs.len() == 0 {
                                None
                            } else {
                                Some(join_spec(hs, Seq::empty()))
                            },
                            calls: cs,
                            usage,
                        },
                    ),
                },
            },
            _ => Err(invalid_response_msg()),
        }
    }
}

/// The normalized reply a decoded body yields.
pub open spec fn anth_response_v(d: AnthDecoded) -> ChatResponseV {
    ChatResponseV {
        message: MessageV {
            role: Role::Assistant,
            content: d.content,
            thinking: d.thinking,
            tool_call_id: None,
            tool_calls: d.calls,
        },
        usage: d.usage,
    }
}

fn opt_str_field_exec(v: &Json, key: &str) -> (r: Result<Option<Vec<char>>, ()>)
    requires
        v@ is Obj,
    ensures
        match opt_str_field(v@->Obj_0, key@) {
            Err(_) => r is Err,
            Ok(None) => r == Ok::<Option<Vec<char>>, ()>(None),
            Ok(Some(s)) => r matches Ok(Some(c)) && c@ == s,
        },
{
    match v.get(key) {
        None => Ok(None),
        Some(x) => {
            if x.is_null() {
                Ok(None)
            } else {
                match x.as_str() {
                    Some(s) => Ok(Some(dup_chars(s))),
                    None => Err(()),
                }
            }
        },
    }
}

fn decode_anth_blocks_from(blocks: &Vec<Json>, from: usize) -> (r: Result<
    (Vec<Vec<char>>, Vec<Vec<char>>, Vec<ToolCall>),
    (),
>)
    requires
        from <= blocks@.len(),
    ensures
        match decode_anth_blocks(views_of_json(blocks@).skip(from as int)) {
            Err(_) => r is Err,
            Ok(parts) => r matches Ok(out) && views_of(out.0@) == parts.0 && views_of(out.1@)
                == parts.1 && views_of_calls(out.2@) == parts.2,
        },
    decreases blocks@.len() - from,
{
    let ghost vs = views_of_json(blocks@);
    if from == blocks.len() {
        proof {
            assert(vs.skip(from as int) =~= Seq::<JsonV>::empty());
        }
        let r: (Vec<Vec<char>>, Vec<Vec<char>>, Vec<ToolCall>) = (Vec::new(), Vec::new(), Vec::new());
        proof {
            assert(views_of(r.0@) =~= Seq::<Seq<char>>::empty());
            assert(views_of(r.1@) =~= Seq::<Seq<char>>::empty());
            assert(views_of_calls(r.2@) =~= Seq::<ToolCallV>::empty());
        }
        return Ok(r);
    }
    proof {
        assert(vs.skip(from as int)[0] == vs[from as int]);
        assert(vs[from as int] == blocks@[from as int]@);
        assert(vs.skip(from as int).drop_first() =~= vs.skip(from + 1));
    }
    let block = &blocks[from];
    if block.as_obj().is_none() {
        return Err(());
    }
    let ty = match block.get("type") {
        Some(t) => match t.as_str() {
            Some(s) => dup_chars(s),
            None => {
                return Err(());
            },
        },
        None => {
            return Err(());
        },
    };
    let thinking_lit = str_to_chars("thinking");
    let text_lit = str_to_chars("text");
    let use_lit = str_to_chars("tool_use");
    // decode this block's contribution first, so a malformed block fails
    // before the rest is read
    let this: ThisBlock = if chars_eq(&ty, &thinking_lit) {
        match opt_str_field_exec(block, "thinking") {
            Err(_) => {
                return Err(());
            },
            Ok(Some(t)) => ThisBlock::Think(t),
            Ok(None) => ThisBlock::Nothing,
        }
    } else if chars_eq(&ty, &text_lit) {
        match opt_str_field_exec(block, "text") {
            Err(_) => {
                return Err(());
            },
            Ok(Some(t)) => ThisBlock::Text(t),
            Ok(None) => ThisBlock::Nothing,
        }
    } else if chars_eq(&ty, &use_lit) {
        let id = match opt_str_field_exec(block, "id") {
            Err(_) => {
                return Err(());
            },
            Ok(x) => x,
        };
        let name = match opt_str_field_exec(block, "name") {
            Err(_) => {
                return Err(());
            },
            Ok(x) => x,
        };
        let input: Option<Json> = match block.get("input") {
            None => None,
            Some(x) => {
                if x.is_null() {
                    None
                } else {
                    Some(x.dup())
                }
            },
        };
        match (id, name, input) {
            (Some(id), Some(name), Some(input)) => ThisBlock::Use(
                ToolCall { id: chars_to_string(&id), name: chars_to_string(&name), input },
            ),
            _ => ThisBlock::Nothing,
        }
    } else {
        ThisBlock::Nothing
    };
    let rest = match decode_anth_blocks_from(blocks, from + 1) {
        Err(_) => {
            return Err(());
        },
        Ok(x) => x,
    };
    let (mut ts, mut hs, mut cs) = rest;
    match this {
        ThisBlock::Text(t) => {
            let ghost snap = views_of(ts@);
            let ghost tv = t@;
            ts.insert(0, t);
            proof {
                assert(views_of(ts@) =~= seq![tv] + snap);
            }
        },
        ThisBlock::Think(h) => {
            let ghost snap = views_of(hs@);
            let ghost hv = h@;
            hs.insert(0, h);
            proof {
                assert(views_of(hs@) =~= seq![hv] + snap);
            }
        },
        ThisBlock::Use(c) => {
            let ghost snap = views_of_calls(cs@);
            let ghost cv = c@;
            cs.insert(0, c);
            proof {
                assert(views_of_calls(cs@) =~= seq![cv] + snap);
            }
        },
        ThisBlock::Nothing => {},
    }
    Ok((ts, hs, cs))
}

/// What one block hands the fold, already converted.
enum ThisBlock {
    Text(Vec<char>),
    Think(Vec<char>),
    Use(ToolCall),
    Nothing,
}

/// Reads an Anthropic-style reply out of its parsed body, exactly as
/// [`spec_decode_anthropic`] describes it.
pub fn decode_anthropic_json(status: u16, v: &Json) -> (r: Result<ChatResponse, String>)
    ensures
        match spec_decode_anthropic(status as int, v@) {
            Err(e) => r matches Err(s) && s@ == e,
            Ok(d) => r matches Ok(resp) && resp@ == anth_response_v(d),
        },
{
    let em = get_error_message(v);
    if !(200 <= status && status < 300) {
        return Err(status_error_string(status, em));
    }
    if let Some(m) = em {
        return Err(chars_to_string(&m));
    }
    let blocks = match v.get("content") {
        Some(c) => match c.as_arr() {
            Some(items) => items,
            None => {
                return Err("Invalid response".to_owned());
            },
        },
        None => {
            return Err("Invalid response".to_owned());
        },
    };
    proof {
        assert(views_of_json(blocks@).skip(0) =~= views_of_json(blocks@));
    }
    let (ts, hs, calls) = match decode_anth_blocks_from(blocks, 0) {
        Ok(x) => x,
        Err(_) => {
            return Err("Invalid response".to_owned());
        },
    };
    let usage = match decode_anth_usage_exec(v) {
        Ok(u) => u,
        Err(_) => {
            return Err("Invalid response".to_owned());
        },
    };
    let empty_sep: Vec<char> = Vec::new();
    let content_chars = join_chars(&ts, &empty_sep);
    let thinking: Option<String> = if hs.len() == 0 {
        None
    } else {
        let t = join_chars(&hs, &empty_sep);
        Some(chars_to_string(&t))
    };
    let message = Message {
        role: Role::Assistant,
        content: chars_to_string(&content_chars),
        thinking,
        tool_call_id: None,
        tool_calls: calls,
    };
    proof {
        if views_of(ts@).len() == 0 {
            assert(views_of(ts@) =~= Seq::<Seq<char>>::empty());
        }
    }
    Ok(ChatResponse { message, usage })
}

fn decode_anth_usage_exec(v: &Json) -> (r: Result<Option<Usage>, ()>)
    ensures
        match decode_anth_usage(v@) {
            Ok(u) => r == Ok::<Option<Usage>, ()>(u),
            Err(_) => r is Err,
        },
{
    let u = match v.get("usage") {
        None => {
            return Ok(None);
        },
        Some(u) => u,
    };
    if u.is_null() {
        return Ok(None);
    }
    if u.as_obj().is_none() {
        return Err(());
    }
    let p = match u.get("input_tokens") {
        Some(x) => match x.as_i32() {
            Some(n) => n,
            None => {
                return Err(());
            },
        },
        None => {
            return Err(());
        },
    };
    let c = match u.get("output_tokens") {
        Some(x) => match x.as_i32() {
            Some(n) => n,
            None => {
                return Err(());
            },
        },
        None => {
            return Err(());
        },
    };
    let total: i64 = p as i64 + c as i64;
    let t: i32 = if total > 0x7fff_ffff {
        0x7fff_ffff
    } else if total < -0x8000_0000 {
        -0x8000_0000
    } else {
        total as i32
    };
    Ok(Some(Usage { prompt_tokens: p, completion_tokens: c, total_tokens: t }))
}

/// Reads an Anthropic-style reply from the HTTP status and body text. A
/// body that is not JSON is the decode error.
pub fn decode_anthropic(status: u16, body: &str) -> (r: Result<ChatResponse, String>)
    ensures
        r matches Ok(resp) ==> exists|jv: JsonV|
            wf_json(jv) && ((#[trigger] spec_decode_anthropic(status as int, jv)) matches Ok(d)
                && resp@ == anth_response_v(d)),
        r matches Err(e) ==> e@ == invalid_response_msg() || exists|jv: JsonV|
            #[trigger] spec_decode_anthropic(status as int, jv) == Err::<AnthDecoded, Seq<char>>(
                e@,
            ),
        forall|jv: JsonV|
            (wf_json(jv) && body@ == #[trigger] ser_json(jv)) ==> (match spec_decode_anthropic(
                status as int,
                jv,
            ) {
                Err(e) => r matches Err(s2) && s2@ == e,
                Ok(d) => r matches Ok(resp) && resp@ == anth_response_v(d),
            }),
{
    match crate::json::parse_json_str(body) {
        None => Err("Invalid response".to_owned()),
        Some(v) => decode_anthropic_json(status, &v),
    }
}

} // verus!
