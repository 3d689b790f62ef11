//! The OpenAI-style chat-completion adapter: serializing a conversation and
//! tool registry into the wire request, and reading a reply back into the
//! normalized model. Tool-call arguments travel as JSON text inside a
//! string; decoding parses them back, falling back to the raw string.

use vstd::prelude::*;
use crate::config::LlmSettings;
use crate::json::{
    Json, JsonV, wf_json, ser_json, lookup_field, lookup_fields, views_of_json, views_of_fields,
    spec_as_i32, milli_lexeme, json_of_milli, obj_of, arr_of, push_field, parse_json_chars,
    dup_chars,
};
use crate::providers::{
    ChatResponse, ChatResponseV, HttpParts, views_of_headers, push_header, url_join, url_join_ok,
    join_url, status_ok, error_message, status_error_msg, invalid_response_msg,
    get_error_message, status_error_string,
};
use crate::strutil::{dec_int, str_to_chars, chars_to_string, chars_eq};
use crate::types::{
    Message, MessageV, Role, Tool, ToolV, ToolCall, ToolCallV, Usage, views_of_calls,
    views_of_messages, views_of_tools, wf_message,
};

verus! {

/// The wire name of a role.
pub open spec fn role_str(r: Role) -> Seq<char> {
    match r {
        Role::System => "system"@,
        Role::User => "user"@,
        Role::Assistant => "assistant"@,
        Role::Tool => "tool"@,
    }
}

pub fn role_string(r: Role) -> (s: String)
    ensures
        s@ == role_str(r),
{
    match r {
        Role::System => "system".to_owned(),
        Role::User => "user".to_owned(),
        Role::Assistant => "assistant".to_owned(),
        Role::Tool => "tool".to_owned(),
    }
}

/// One tool call on the wire: its input serialized to JSON text under the
/// function object.
pub open spec fn openai_call_v(c: ToolCallV) -> JsonV {
    JsonV::Obj(
        seq![
            ("id"@, JsonV::Str(c.id)),
            ("type"@, JsonV::Str("function"@)),
            (
                "function"@,
                JsonV::Obj(
                    seq![
                        ("name"@, JsonV::Str(c.name)),
                        ("arguments"@, JsonV::Str(ser_json(c.input))),
                    ],
                ),
            ),
        ],
    )
}

pub open spec fn openai_calls_v(calls: Seq<ToolCallV>) -> Seq<JsonV> {
    Seq::new(calls.len(), |i: int| openai_call_v(calls[i]))
}

/// One message on the wire: roles map one to one; a tool reply carries its
/// back-reference, and an assistant message carries its calls.
pub open spec fn openai_message_v(m: MessageV) -> JsonV {
    if m.role == Role::Tool {
        JsonV::Obj(
            seq![("role"@, JsonV::Str("tool"@)), ("content"@, JsonV::Str(m.content))] + (
            match m.tool_call_id {
                Some(id) => seq![("tool_call_id"@, JsonV::Str(id))],
                None => Seq::empty(),
            }),
        )
    } else if m.role == Role::Assistant && m.tool_calls.len() > 0 {
        JsonV::Obj(
            seq![
                ("role"@, JsonV::Str("assistant"@)),
                ("content"@, JsonV::Str(m.content)),
                ("tool_calls"@, JsonV::Arr(openai_calls_v(m.tool_calls))),
            ],
        )
    } else {
        JsonV::Obj(seq![("role"@, JsonV::Str(role_str(m.role))), ("content"@, JsonV::Str(m.content))])
    }
}

pub open spec fn openai_messages_v(ms: Seq<MessageV>) -> Seq<JsonV> {
    Seq::new(ms.len(), |i: int| openai_message_v(ms[i]))
}

/// One tool-registry entry on the wire.
pub open spec fn openai_tool_v(t: ToolV) -> JsonV {
    JsonV::Obj(
        seq![
            ("type"@, JsonV::Str("function"@)),
            (
                "function"@,
                JsonV::Obj(
                    seq![
                        ("name"@, JsonV::Str(t.name)),
                        ("description"@, JsonV::Str(t.description)),
                        ("parameters"@, t.input_schema),
                    ],
                ),
            ),
        ],
    )
}

pub open spec fn openai_tools_v(ts: Seq<ToolV>) -> Seq<JsonV> {
    Seq::new(ts.len(), |i: int| openai_tool_v(ts[i]))
}

/// The whole request body.
pub open spec fn openai_request_v(
    model: Seq<char>,
    temperature_milli: int,
    max_tokens: int,
    msgs: Seq<MessageV>,
    tools: Seq<ToolV>,
) -> JsonV {
    JsonV::Obj(
        seq![
            ("model"@, JsonV::Str(model)),
            ("temperature"@, JsonV::Num(milli_lexeme(temperature_milli))),
            ("max_tokens"@, JsonV::Num(dec_int(max_tokens))),
            ("messages"@, JsonV::Arr(openai_messages_v(msgs))),
        ] + (if tools.len() == 0 {
            Seq::<(Seq<char>, JsonV)>::empty()
        } else {
            seq![("tools"@, JsonV::Arr(openai_tools_v(tools)))]
        }) + seq![("tool_choice"@, JsonV::Str("auto"@))],
    )
}

/// The headers sent with the request: JSON content, and a bearer token when
/// an API key is configured.
pub open spec fn openai_headers(api_key: Option<Seq<char>>) -> Seq<(Seq<char>, Seq<char>)> {
    seq![("Content-Type"@, "application/json"@)] + (match api_key {
        Some(k) => seq![("Authorization"@, "Bearer "@ + k)],
        None => Seq::empty(),
    })
}

fn encode_call(c: &ToolCall) -> (r: Json)
    ensures
        r@ == openai_call_v(c@),
{
    let mut ff: Vec<(Vec<char>, Json)> = Vec::new();
    push_field(&mut ff, "name", Json::of_str(c.name.as_str()));
    push_field(&mut ff, "arguments", Json::of_chars(crate::json::to_json_chars(&c.input)));
    let function = obj_of(ff);
    let mut fields: Vec<(Vec<char>, Json)> = Vec::new();
    push_field(&mut fields, "id", Json::of_str(c.id.as_str()));
    push_field(&mut fields, "type", Json::of_str("function"));
    push_field(&mut fields, "function", function);
    let r = obj_of(fields);
    proof {
        assert(views_of_fields(ff@) =~= seq![
            ("name"@, JsonV::Str(c.name@)),
            ("arguments"@, JsonV::Str(ser_json(c.input@))),
        ]);
        assert(views_of_fields(fields@) =~= seq![
            ("id"@, JsonV::Str(c.id@)),
            ("type"@, JsonV::Str("function"@)),
            ("function"@, function@),
        ]);
    }
    r
}

fn encode_message(m: &Message) -> (r: Json)
    ensures
        r@ == openai_message_v(m@),
{
    let mut fields: Vec<(Vec<char>, Json)> = Vec::new();
    if m.role == Role::Tool {
        push_field(&mut fields, "role", Json::of_str("tool"));
        push_field(&mut fields, "content", Json::of_str(m.content.as_str()));
        match &m.tool_call_id {
            Some(id) => {
                push_field(&mut fields, "tool_call_id", Json::of_str(id.as_str()));
                proof {
                    assert(views_of_fields(fields@) =~= seq![
                        ("role"@, JsonV::Str("tool"@)),
                        ("content"@, JsonV::Str(m.content@)),
                    ] + seq![("tool_call_id"@, JsonV::Str(id@))]);
                }
            },
            None => {
                proof {
                    assert(views_of_fields(fields@) =~= seq![
                        ("role"@, JsonV::Str("tool"@)),
                        ("content"@, JsonV::Str(m.content@)),
                    ] + Seq::<(Seq<char>, JsonV)>::empty());
                }
            },
        }
        obj_of(fields)
    } else if m.role == Role::Assistant && m.tool_calls.len() > 0 {
        push_field(&mut fields, "role", Json::of_str("assistant"));
        push_field(&mut fields, "content", Json::of_str(m.content.as_str()));
        let mut calls: Vec<Json> = Vec::new();
        let mut i: usize = 0;
        while i < m.tool_calls.len()
            invariant
                i <= m.tool_calls@.len(),
                calls@.len() == i,
                forall|j: int|
                    0 <= j < i ==> (#[trigger] calls@[j])@ == openai_call_v(m.tool_calls@[j]@),
            decreases m.tool_calls@.len() - i,
        {
            let c = encode_call(&m.tool_calls[i]);
            calls.push(c);
            i += 1;
        }
        let calls_json = arr_of(calls);
        proof {
            assert(views_of_json(calls@) =~= openai_calls_v(views_of_calls(m.tool_calls@)));
        }
        push_field(&mut fields, "tool_calls", calls_json);
        let r = obj_of(fields);
        proof {
            assert(views_of_fields(fields@) =~= seq![
                ("role"@, JsonV::Str("assistant"@)),
                ("content"@, JsonV::Str(m.content@)),
                ("tool_calls"@, JsonV::Arr(openai_calls_v(views_of_calls(m.tool_calls@)))),
            ]);
        }
        r
    } else {
        push_field(&mut fields, "role", role_json(m.role));
        push_field(&mut fields, "content", Json::of_str(m.content.as_str()));
        let r = obj_of(fields);
        proof {
            assert(views_of_fields(fields@) =~= seq![
                ("role"@, JsonV::Str(role_str(m.role))),
                ("content"@, JsonV::Str(m.content@)),
            ]);
        }
        r
    }
}

fn role_json(r: Role) -> (j: Json)
    ensures
        j@ == JsonV::Str(role_str(r)),
{
    let s = role_string(r);
    Json::of_str(s.as_str())
}

fn encode_tool(t: &Tool) -> (r: Json)
    ensures
        r@ == openai_tool_v(t@),
{
    let mut ff: Vec<(Vec<char>, Json)> = Vec::new();
    push_field(&mut ff, "name", Json::of_str(t.name.as_str()));
    push_field(&mut ff, "description", Json::of_str(t.description.as_str()));
    push_field(&mut ff, "parameters", t.input_schema.dup());
    let function = obj_of(ff);
    let mut fields: Vec<(Vec<char>, Json)> = Vec::new();
    push_field(&mut fields, "type", Json::of_str("function"));
    push_field(&mut fields, "function", function);
    let r = obj_of(fields);
    proof {
        assert(views_of_fields(ff@) =~= seq![
            ("name"@, JsonV::Str(t.name@)),
            ("description"@, JsonV::Str(t.description@)),
            ("parameters"@, t.input_schema@),
        ]);
        assert(views_of_fields(fields@) =~= seq![
            ("type"@, JsonV::Str("function"@)),
            ("function"@, function@),
        ]);
    }
    r
}

/// Builds the complete HTTP request for one OpenAI-style round trip, or
/// reports a base URL that does not parse.
pub fn encode_request(settings: &LlmSettings, messages: &Vec<Message>, tools: &Vec<Tool>) -> (r:
    Result<HttpParts, String>)
    ensures
        r is Ok <==> url_join_ok(settings.base_url@, "chat/completions"@),
        r matches Ok(parts) ==> parts.url@ == url_join(settings.base_url@, "chat/completions"@)
            && parts.body@ == ser_json(
            openai_request_v(
                settings.model@,
                settings.temperature_milli as int,
                settings.max_tokens as int,
                views_of_messages(messages@),
                views_of_tools(tools@),
            ),
        ) && views_of_headers(parts.headers@) == openai_headers(
            crate::config::view_opt_string(settings.api_key),
        ),
        r matches Err(e) ==> e@ == "Invalid base_url"@,
{
    let url = match join_url(settings.base_url.as_str(), "chat/completions") {
        Some(u) => u,
        None => {
            return Err("Invalid base_url".to_owned());
        },
    };

    let mut fields: Vec<(Vec<char>, Json)> = Vec::new();
    push_field(&mut fields, "model", Json::of_str(settings.model.as_str()));
    push_field(&mut fields, "temperature", json_of_milli(settings.temperature_milli));
    push_field(&mut fields, "max_tokens", Json::of_i64(settings.max_tokens as i64));

    let mut msgs: Vec<Json> = Vec::new();
    let mut i: usize = 0;
    while i < messages.len()
        invariant
            i <= messages@.len(),
            msgs@.len() == i,
            forall|j: int|
                0 <= j < i ==> (#[trigger] msgs@[j])@ == openai_message_v(messages@[j]@),
        decreases messages@.len() - i,
    {
        let mj = encode_message(&messages[i]);
        msgs.push(mj);
        i += 1;
    }
    let msgs_json = arr_of(msgs);
    proof {
        assert(views_of_json(msgs@) =~= openai_messages_v(views_of_messages(messages@)));
    }
    push_field(&mut fields, "messages", msgs_json);

    let ghost before_tools = views_of_fields(fields@);
    if tools.len() > 0 {
        let mut tjs: Vec<Json> = Vec::new();
        let mut i: usize = 0;
        while i < tools.len()
            invariant
                i <= tools@.len(),
                tjs@.len() == i,
                forall|j: int| 0 <= j < i ==> (#[trigger] tjs@[j])@ == openai_tool_v(tools@[j]@),
            decreases tools@.len() - i,
        {
            let tj = encode_tool(&tools[i]);
            tjs.push(tj);
            i += 1;
        }
        let tools_json = arr_of(tjs);
        proof {
            assert(views_of_json(tjs@) =~= openai_tools_v(views_of_tools(tools@)));
        }
        push_field(&mut fields, "tools", tools_json);
    }
    push_field(&mut fields, "tool_choice", Json::of_str("auto"));
    let body_json = obj_of(fields);
    proof {
        let req = openai_request_v(
            settings.model@,
            settings.temperature_milli as int,
            settings.max_tokens as int,
            views_of_messages(messages@),
            views_of_tools(tools@),
        );
        assert(views_of_fields(fields@) =~= req->Obj_0);
        assert(body_json@ == req);
    }
    let body = crate::json::to_json_string(&body_json);

    let mut headers: Vec<(String, String)> = Vec::new();
    push_header(&mut headers, "Content-Type", "application/json".to_owned());
    match &settings.api_key {
        Some(k) => {
            let mut bearer = String::new();
            bearer.append("Bearer ");
            bearer.append(k.as_str());
            proof {
                assert(bearer@ =~= "Bearer "@ + k@);
            }
            push_header(&mut headers, "Authorization", bearer);
            proof {
                assert(views_of_headers(headers@) =~= openai_headers(
                    crate::config::view_opt_string(settings.api_key),
                ));
            }
        },
        None => {
            proof {
                assert(views_of_headers(headers@) =~= openai_headers(
                    crate::config::view_opt_string(settings.api_key),
                ));
            }
        },
    }
    Ok(HttpParts { url, headers, body })
}

// ---------------------------------------------------------------------
// decoding

/// A tool call as the wire carries it: arguments still JSON text.
pub struct OaCallRaw {
    pub id: Seq<char>,
    pub name: Seq<char>,
    pub arguments: Seq<char>,
}

/// A decoded reply before tool-call arguments are parsed.
pub struct OaShape {
    pub content: Seq<char>,
    pub calls: Seq<OaCallRaw>,
    pub usage: Option<Usage>,
}

/// Decodes one entry of a reply's tool-call list: all fields must be in
/// place; an entry of another call type is skipped.
pub open spec fn decode_oa_call(v: JsonV) -> Result<Option<OaCallRaw>, ()> {
    match v {
        JsonV::Obj(fs) => match (
            lookup_fields(fs, "id"@),
            lookup_fields(fs, "type"@),
            lookup_fields(fs, "function"@),
        ) {
            (Some(JsonV::Str(id)), Some(JsonV::Str(ty)), Some(JsonV::Obj(ffs))) => match (
                lookup_fields(ffs, "name"@),
                lookup_fields(ffs, "arguments"@),
            ) {
                (Some(JsonV::Str(name)), Some(JsonV::Str(arguments))) => if ty == "function"@ {
                    Ok(Some(OaCallRaw { id, name, arguments }))
                } else {
                    Ok(None)
                },
                _ => Err(()),
            },
            _ => Err(()),
        },
        _ => Err(()),
    }
}

pub open spec fn decode_oa_calls(items: Seq<JsonV>) -> Result<Seq<OaCallRaw>, ()>
    decreases items.len(),
{
    if items.len() == 0 {
        Ok(Seq::empty())
    } else {
        match decode_oa_call(items[0]) {
            Err(e) => Err(e),
            Ok(first) => match decode_oa_calls(items.drop_first()) {
                Err(e) => Err(e),
                Ok(rest) => Ok(
                    match first {
                        Some(c) => seq![c] + rest,
                        None => rest,
                    },
                ),
            },
        }
    }
}

/// Decodes the first choice's message: its content and raw tool calls.
pub open spec fn decode_oa_choice(v: JsonV) -> Result<(Seq<char>, Seq<OaCallRaw>), ()> {
    match v {
        JsonV::Obj(cf) => match lookup_fields(cf, "message"@) {
            Some(JsonV::Obj(mf)) => match lookup_fields(mf, "role"@) {
                Some(JsonV::Str(_)) => {
                    let content = match lookup_fields(mf, "content"@) {
                        None => Ok(Seq::<char>::empty()),
                        Some(JsonV::Null) => Ok(Seq::<char>::empty()),
                        Some(JsonV::Str(s)) => Ok(s),
                        _ => Err(()),
                    };
                    let calls = match lookup_fields(mf, "tool_calls"@) {
                        None => Ok(Seq::<OaCallRaw>::empty()),
                        Some(JsonV::Arr(items)) => decode_oa_calls(items),
                        _ => Err(()),
                    };
                    match (content, calls) {
                        (Ok(c), Ok(cs)) => Ok((c, cs)),
                        _ => Err(()),
                    }
                },
                _ => Err(()),
            },
            _ => Err(()),
        },
        _ => Err(()),
    }
}

/// Decodes the usage object: absent or null means none; present means all
/// three counts must be integers in range.
pub open spec fn decode_oa_usage(v: JsonV) -> Result<Option<Usage>, ()> {
    match lookup_field(v, "usage"@) {
        None => Ok(None),
        Some(JsonV::Null) => Ok(None),
        Some(JsonV::Obj(uf)) => match (
            lookup_fields(uf, "prompt_tokens"@),
            lookup_fields(uf, "completion_tokens"@),
            lookup_fields(uf, "total_tokens"@),
        ) {
            (Some(p), Some(c), Some(t)) => match (
                spec_as_i32(p),
                spec_as_i32(c),
                spec_as_i32(t),
            ) {
                (Some(p), Some(c), Some(t)) => Ok(
                    Some(Usage { prompt_tokens: p, completion_tokens: c, total_tokens: t }),
                ),
                _ => Err(()),
            },
            _ => Err(()),
        },
        Some(_) => Err(()),
    }
}

/// Decodes a whole OpenAI-style reply, as a function of the HTTP status and
/// the body's JSON value: a failing status reports the embedded error
/// message; an embedded error fails even a success status; otherwise the
/// first choice and the usage are read out.
pub open spec fn spec_decode_openai(status: int, v: JsonV) -> Result<OaShape, Seq<char>> {
    let em = error_message(v);
    if !status_ok(status) {
        Err(status_error_msg(status, em))
    } else if em is Some {
        Err(em->0)
    } else {
        match lookup_field(v, "choices"@) {
            Some(JsonV::Arr(choices)) => match decode_oa_usage(v) {
                Err(_) => Err(invalid_response_msg()),
                Ok(usage) => if choices.len() == 0 {
                    Ok(OaShape { content: Seq::empty(), calls: Seq::empty(), usage })
                } else {
                    match decode_oa_choice(choices[0]) {
                        Ok(cc) => Ok(OaShape { content: cc.0, calls: cc.1, usage }),
                        Err(_) => Err(invalid_response_msg()),
                    }
                },
            },
            _ => Err(invalid_response_msg()),
        }
    }
}

/// What decoding guarantees of a parsed tool-call input: empty text becomes
/// the empty object; other text becomes a well-formed value, and text that
/// is the serialization of a value becomes exactly that value.
pub open spec fn tool_input_rel(raw: Seq<char>, v: JsonV) -> bool {
    if raw.len() == 0 {
        v == JsonV::Obj(Seq::<(Seq<char>, JsonV)>::empty())
    } else {
        wf_json(v) && (forall|jv: JsonV|
            wf_json(jv) && raw == #[trigger] ser_json(jv) ==> v == jv)
    }
}

/// How a decoded reply relates to the raw shape: everything is carried over
/// exactly, and each call's input stands in [`tool_input_rel`] to its
/// argument text.
pub open spec fn relate_oa(shape: OaShape, rv: ChatResponseV) -> bool {
    &&& rv.usage == shape.usage
    &&& rv.message.role == Role::Assistant
    &&& rv.message.content == shape.content
    &&& rv.message.thinking is None
    &&& rv.message.tool_call_id is None
    &&& rv.message.tool_calls.len() == shape.calls.len()
    &&& forall|i: int|
        0 <= i < shape.calls.len() ==> {
            &&& (#[trigger] rv.message.tool_calls[i]).id == shape.calls[i].id
            &&& rv.message.tool_calls[i].name == shape.calls[i].name
            &&& tool_input_rel(shape.calls[i].arguments, rv.message.tool_calls[i].input)
            &&& wf_json(rv.message.tool_calls[i].input)
        }
}

/// Parses a tool call's argument text: empty means an empty object, invalid
/// JSON falls back to the text itself as a string.
pub fn parse_tool_input(raw: &Vec<char>) -> (r: Json)
    ensures
        tool_input_rel(raw@, r@),
        wf_json(r@),
{
    if raw.len() == 0 {
        let fields: Vec<(Vec<char>, Json)> = Vec::new();
        let r = obj_of(fields);
        proof {
            assert(views_of_fields(fields@) =~= Seq::<(Seq<char>, JsonV)>::empty());
        }
        r
    } else {
        match parse_json_chars(raw) {
            Some(j) => j,
            None => {
                proof {
                    assert forall|jv: JsonV|
                        !(wf_json(jv) && raw@ == #[trigger] ser_json(jv)) by {}
                }
                Json::Str(dup_chars(raw))
            },
        }
    }
}

fn decode_calls_from(items: &Vec<Json>, from: usize) -> (r: Result<Vec<ToolCall>, ()>)
    requires
        from <= items@.len(),
    ensures
        match decode_oa_calls(views_of_json(items@).skip(from as int)) {
            Err(_) => r is Err,
            Ok(raws) => r matches Ok(cs) && relate_raw_calls(raws, views_of_calls(cs@)),
        },
    decreases items@.len() - from,
{
    let ghost vs = views_of_json(items@);
    if from == items.len() {
        proof {
            assert(vs.skip(from as int) =~= Seq::<JsonV>::empty());
        }
        let out: Vec<ToolCall> = Vec::new();
        proof {
            assert(views_of_calls(out@) =~= Seq::<ToolCallV>::empty());
        }
        return Ok(out);
    }
    proof {
        assert(vs.skip(from as int)[0] == vs[from as int]);
        assert(vs[from as int] == items@[from as int]@);
        assert(vs.skip(from as int).drop_first() =~= vs.skip(from + 1));
    }
    let item = &items[from];
    let id = match item.get("id") {
        Some(x) => match x.as_str() {
            Some(s) => dup_chars(s),
            None => {
                return Err(());
            },
        },
        None => {
            return Err(());
        },
    };
    let ty = match item.get("type") {
        Some(x) => match x.as_str() {
            Some(s) => dup_chars(s),
            None => {
                return Err(());
            },
        },
        None => {
            return Err(());
        },
    };
    let function = match item.get("function") {
        Some(x) => {
            if x.as_obj().is_some() {
                x
            } else {
                return Err(());
            }
        },
        None => {
            return Err(());
        },
    };
    let name = match function.get("name") {
        Some(x) => match x.as_str() {
            Some(s) => dup_chars(s),
            None => {
                return Err(());
            },
        },
        None => {
            return Err(());
        },
    };
    let arguments = match function.get("arguments") {
        Some(x) => match x.as_str() {
            Some(s) => dup_chars(s),
            None => {
                return Err(());
            },
        },
        None => {
            return Err(());
        },
    };
    let mut rest = match decode_calls_from(items, from + 1) {
        Ok(cs) => cs,
        Err(_) => {
            return Err(());
        },
    };
    let fnword = str_to_chars("function");
    if chars_eq(&ty, &fnword) {
        let input = parse_tool_input(&arguments);
        let call = ToolCall {
            id: chars_to_string(&id),
            name: chars_to_string(&name),
            input,
        };
        let ghost rest_views = views_of_calls(rest@);
        rest.insert(0, call);
        proof {
            let raws = decode_oa_calls(vs.skip(from as int))->Ok_0;
            assert(views_of_calls(rest@) =~= seq![call@] + rest_views);
            assert(relate_raw_calls(raws, views_of_calls(rest@)));
        }
        Ok(rest)
    } else {
        Ok(rest)
    }
}

/// How raw wire calls relate to decoded calls, element by element.
pub open spec fn relate_raw_calls(raws: Seq<OaCallRaw>, calls: Seq<ToolCallV>) -> bool {
    &&& calls.len() == raws.len()
    &&& forall|i: int|
        0 <= i < raws.len() ==> {
            &&& (#[trigger] calls[i]).id == raws[i].id
            &&& calls[i].name == raws[i].name
            &&& tool_input_rel(raws[i].arguments, calls[i].input)
            &&& wf_json(calls[i].input)
        }
}

/// Reads an OpenAI-style reply out of its parsed body, exactly as
/// [`spec_decode_openai`] describes it.
pub fn decode_openai_json(status: u16, v: &Json) -> (r: Result<ChatResponse, String>)
    ensures
        match spec_decode_openai(status as int, v@) {
            Err(e) => r matches Err(s) && s@ == e,
            Ok(shape) => r matches Ok(resp) && relate_oa(shape, resp@) && wf_message(
                resp@.message,
            ),
        },
{
    let em = get_error_message(v);
    if !(200 <= status && status < 300) {
        return Err(status_error_string(status, em));
    }
    if let Some(m) = em {
        return Err(chars_to_string(&m));
    }
    let choices = match v.get("choices") {
        Some(c) => match c.as_arr() {
            Some(items) => items,
            None => {
                return Err("Invalid response".to_owned());
            },
        },
        None => {
            return Err("Invalid response".to_owned());
        },
    };
    let usage = match decode_usage(v) {
        Ok(u) => u,
        Err(_) => {
            return Err("Invalid response".to_owned());
        },
    };
    if choices.len() == 0 {
        let message = Message::plain(Role::Assistant, String::new());
        return Ok(ChatResponse { message, usage });
    }
    let choice = &choices[0];
    proof {
        assert(views_of_json(choices@)[0] == choices@[0]@);
    }
    let msg = match choice.get("message") {
        Some(m) => {
            if m.as_obj().is_some() {
                m
            } else {
                return Err("Invalid response".to_owned());
            }
        },
        None => {
            return Err("Invalid response".to_owned());
        },
    };
    match msg.get("role") {
        Some(r) => {
            if r.as_str().is_none() {
                return Err("Invalid response".to_owned());
            }
        },
        None => {
            return Err("Invalid response".to_owned());
        },
    }
    let content: Vec<char> = match msg.get("content") {
        None => Vec::new(),
        Some(c) => {
            if c.is_null() {
                Vec::new()
            } else {
                match c.as_str() {
                    Some(s) => dup_chars(s),
                    None => {
                        return Err("Invalid response".to_owned());
                    },
                }
            }
        },
    };
    let calls: Vec<ToolCall> = match msg.get("tool_calls") {
        None => Vec::new(),
        Some(tc) => match tc.as_arr() {
            Some(items) => {
                proof {
                    assert(views_of_json(items@).skip(0) =~= views_of_json(items@));
                }
                match decode_calls_from(items, 0) {
                    Ok(cs) => cs,
                    Err(_) => {
                        return Err("Invalid response".to_owned());
                    },
                }
            },
            None => {
                return Err("Invalid response".to_owned());
            },
        },
    };
    proof {
        if views_of_calls(calls@).len() == 0 {
            assert(views_of_calls(calls@) =~= Seq::<ToolCallV>::empty());
        }
    }
    let message = Message {
        role: Role::Assistant,
        content: chars_to_string(&content),
        thinking: None,
        tool_call_id: None,
        tool_calls: calls,
    };
    Ok(ChatResponse { message, usage })
}

fn decode_usage(v: &Json) -> (r: Result<Option<Usage>, ()>)
    ensures
        match decode_oa_usage(v@) {
            Ok(u) => r == Ok::<Option<Usage>, ()>(u),
            Err(_) => r is Err,
        },
{
    let u = match v.get("usage") {
        None => {
            return Ok(None);
        },
        Some(u) => u,
    };
    if u.is_null() {
        return Ok(None);
    }
    if u.as_obj().is_none() {
        return Err(());
    }
    let p = match u.get("prompt_tokens") {
        Some(x) => match x.as_i32() {
            Some(n) => n,
            None => {
                return Err(());
            },
        },
        None => {
            return Err(());
        },
    };
    let c = match u.get("completion_tokens") {
        Some(x) => match x.as_i32() {
            Some(n) => n,
            None => {
                return Err(());
            },
        },
        None => {
            return Err(());
        },
    };
    let t = match u.get("total_tokens") {
        Some(x) => match x.as_i32() {
            Some(n) => n,
            None => {
                return Err(());
            },
        },
        None => {
            return Err(());
        },
    };
    Ok(Some(Usage { prompt_tokens: p, completion_tokens: c, total_tokens: t }))
}

/// Reads an OpenAI-style reply from the HTTP status and body text. A body
/// that is not JSON is the decode error; a body that is the serialization of
/// a value is decoded exactly as [`spec_decode_openai`] reads that value.
pub fn decode_openai(status: u16, body: &str) -> (r: Result<ChatResponse, String>)
    ensures
        r matches Ok(resp) ==> exists|jv: JsonV|
            wf_json(jv) && ((#[trigger] spec_decode_openai(status as int, jv)) matches Ok(shape)
                && relate_oa(shape, resp@) && wf_message(resp@.message)),
        r matches Err(e) ==> e@ == invalid_response_msg() || exists|jv: JsonV|
            #[trigger] spec_decode_openai(status as int, jv) == Err::<OaShape, Seq<char>>(e@),
        forall|jv: JsonV|
            (wf_json(jv) && body@ == #[trigger] ser_json(jv)) ==> (match spec_decode_openai(
                status as int,
                jv,
            ) {
                Err(e) => r matches Err(s2) && s2@ == e,
                Ok(shape) => r matches Ok(resp) && relate_oa(shape, resp@) && wf_message(
                    resp@.message,
                ),
            }),
{
    match crate::json::parse_json_str(body) {
        None => Err("Invalid response".to_owned()),
        Some(v) => {
            let r = decode_openai_json(status, &v);
            proof {
                let jv = v@;
                match spec_decode_openai(status as int, jv) {
                    Err(e) => {},
                    Ok(shape) => {},
                }
            }
            r
        },
    }
}

} // verus!
