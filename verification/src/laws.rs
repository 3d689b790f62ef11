//! Cross-component properties, proved once and for all: how the error
//! taxonomy composes with the error categorizer, and that a tool call
//! encoded onto either wire decodes back to the same call.

use vstd::prelude::*;
use crate::agent::spec_map_provider_error;
use crate::anthropic::{
    spec_decode_anthropic, decode_anth_block, decode_anth_blocks, tool_use_block_v,
    anth_message_v, text_block_v, BlockOut,
};
use crate::json::{JsonV, lookup_field, lookup_fields, ser_json};
use crate::openai::{decode_oa_call, openai_call_v, spec_decode_openai, OaCallRaw};
use crate::providers::{error_message, status_error_msg, status_ok};
use crate::strutil::{contains_seq, dec_int, dec_digits, join_spec};
use crate::types::{MessageV, Role, ToolCallV};

verus! {

proof fn lemma_dec_401()
    ensures
        dec_int(401) == seq!['4', '0', '1'],
{
    reveal_with_fuel(dec_digits, 4);
    assert(dec_digits(401) =~= seq!['4', '0', '1']);
}

proof fn lemma_status_401_contains(em: Option<Seq<char>>)
    ensures
        contains_seq(status_error_msg(401, em), "401"@),
{
    reveal_strlit("401");
    lemma_dec_401();
    assert("401"@ =~= dec_int(401));
    match em {
        Some(m) => {
            reveal_strlit(" (status ");
            let s = status_error_msg(401, Some(m));
            let i = m.len() as int + 9;
            assert(s =~= m + " (status "@ + dec_int(401) + seq![')']);
            assert(s.subrange(i, i + 3) =~= "401"@);
        },
        None => {
            reveal_strlit("request failed with status ");
            let s = status_error_msg(401, None);
            let i: int = 27;
            assert(s =~= "request failed with status "@ + dec_int(401));
            assert(s.subrange(i, i + 3) =~= "401"@);
        },
    }
}

/// An HTTP 401, with or without a readable error body, always surfaces to
/// the human as the invalid-API-key category, under either wire protocol.
/// (That the conversation history is left unchanged by any failing call is
/// part of `apply_provider_response`'s own contract.)
pub proof fn lemma_unauthorized_is_categorized(v: JsonV)
    ensures
        spec_decode_openai(401, v) is Err,
        spec_map_provider_error(spec_decode_openai(401, v)->Err_0) == "Invalid API key."@,
        spec_decode_anthropic(401, v) is Err,
        spec_map_provider_error(spec_decode_anthropic(401, v)->Err_0) == "Invalid API key."@,
{
    assert(!status_ok(401));
    lemma_status_401_contains(error_message(v));
}

/// A tool call's input, serialized to the argument text the OpenAI-style
/// wire carries, reads back as exactly that input: with
/// [`lemma_openai_call_round_trip`] below, an encoded call echoed back in a
/// reply decodes to the same name and a structurally identical input.
pub proof fn lemma_openai_input_round_trip(c: ToolCallV, v: JsonV)
    requires
        crate::json::wf_json(c.input),
        crate::openai::tool_input_rel(ser_json(c.input), v),
    ensures
        v == c.input,
{
    crate::json::lemma_ser_first(c.input);
}

/// A tool call encoded onto the OpenAI-style wire decodes back to the same
/// id and name, with its input carried as exactly its serialized JSON text.
pub proof fn lemma_openai_call_round_trip(c: ToolCallV)
    ensures
        decode_oa_call(openai_call_v(c)) == Ok::<Option<OaCallRaw>, ()>(
            Some(OaCallRaw { id: c.id, name: c.name, arguments: ser_json(c.input) }),
        ),
{
    reveal_strlit("id");
    reveal_strlit("type");
    reveal_strlit("function");
    reveal_strlit("name");
    reveal_strlit("arguments");
    let v = openai_call_v(c);
    let fs = v->Obj_0;
    reveal_with_fuel(lookup_fields, 5);
    assert(fs.drop_first() =~= seq![fs[1], fs[2]]);
    assert(fs.drop_first().drop_first() =~= seq![fs[2]]);
    assert("id"@ != "type"@) by {
        assert("id"@.len() == 2);
        assert("type"@.len() == 4);
    }
    assert("id"@ != "function"@) by {
        assert("id"@.len() == 2);
        assert("function"@.len() == 8);
    }
    assert("type"@ != "function"@) by {
        assert("type"@.len() == 4);
        assert("function"@.len() == 8);
    }
    assert("name"@ != "arguments"@) by {
        assert("name"@.len() == 4);
        assert("arguments"@.len() == 9);
    }
    assert(lookup_fields(fs, "id"@) == Some(JsonV::Str(c.id)));
    assert(lookup_fields(fs, "type"@) == Some(JsonV::Str("function"@)));
    assert(lookup_fields(fs, "function"@) == Some(fs[2].1));
    let ffs = fs[2].1->Obj_0;
    assert(ffs.drop_first() =~= seq![ffs[1]]);
    assert(lookup_fields(ffs, "name"@) == Some(JsonV::Str(c.name)));
    assert(lookup_fields(ffs, "arguments"@) == Some(JsonV::Str(ser_json(c.input))));
}

/// A tool call encoded onto the Anthropic-style wire, echoed back inside a
/// reply's content array, decodes to the very same call, and the message
/// text echoes back unchanged beside it: both travel verbatim. A call whose
/// input is JSON `null` is the one exception: the decoder reads a null input
/// as an absent one and skips the block.
pub proof fn lemma_anthropic_round_trip(m: MessageV, status: int)
    requires
        m.role == Role::Assistant,
        m.tool_calls.len() == 1,
        !(m.tool_calls[0].input is Null),
        status_ok(status),
    ensures
        ({
            let enc = anth_message_v(m, false);
            let blocks = lookup_field(enc, "content"@)->Some_0->Arr_0;
            let body = JsonV::Obj(seq![("content"@, JsonV::Arr(blocks))]);
            &&& spec_decode_anthropic(status, body) matches Ok(d) && d.calls == m.tool_calls
                && d.content == m.content && d.thinking is None && d.usage is None
        }),
{
    reveal_strlit("role");
    reveal_strlit("assistant");
    reveal_strlit("content");
    reveal_strlit("type");
    reveal_strlit("tool_use");
    reveal_strlit("thinking");
    reveal_strlit("text");
    reveal_strlit("id");
    reveal_strlit("name");
    reveal_strlit("input");
    reveal_strlit("error");
    reveal_strlit("usage");
    let c = m.tool_calls[0];
    let enc = anth_message_v(m, false);
    reveal_with_fuel(lookup_fields, 7);
    assert(enc->Obj_0[1].0 == "content"@);
    assert(lookup_fields(enc->Obj_0, "content"@) == Some(enc->Obj_0[1].1));
    let blocks = lookup_field(enc, "content"@)->Some_0->Arr_0;
    assert(crate::anthropic::tool_use_blocks_v(m.tool_calls) =~= seq![tool_use_block_v(c)]);
    let body = JsonV::Obj(seq![("content"@, JsonV::Arr(blocks))]);
    assert(lookup_fields(body->Obj_0, "error"@) is None);
    assert(error_message(body) is None);
    assert(lookup_fields(body->Obj_0, "usage"@) is None);
    assert(lookup_field(body, "content"@) == Some(JsonV::Arr(blocks)));

    // key disequalities the block lookups step across
    assert("tool_use"@ != "thinking"@) by {
        assert("tool_use"@.len() == 8);
        assert("thinking"@.len() == 8);
        assert("tool_use"@[1] == 'o');
        assert("thinking"@[1] == 'h');
    }
    assert("tool_use"@ != "text"@) by {
        assert("tool_use"@.len() == 8);
        assert("text"@.len() == 4);
    }
    assert("type"@ != "id"@) by {
        assert("type"@.len() == 4);
        assert("id"@.len() == 2);
    }
    assert("type"@ != "name"@) by {
        assert("type"@[0] == 't');
        assert("name"@[0] == 'n');
    }
    assert("type"@ != "input"@) by {
        assert("type"@.len() == 4);
        assert("input"@.len() == 5);
    }
    assert("id"@ != "name"@) by {
        assert("id"@.len() == 2);
        assert("name"@.len() == 4);
    }
    assert("id"@ != "input"@) by {
        assert("id"@.len() == 2);
        assert("input"@.len() == 5);
    }
    assert("name"@ != "input"@) by {
        assert("name"@.len() == 4);
        assert("input"@.len() == 5);
    }
    assert("text"@ != "thinking"@) by {
        assert("text"@.len() == 4);
        assert("thinking"@.len() == 8);
    }
    assert("type"@ != "text"@) by {
        assert("type"@[1] == 'y');
        assert("text"@[1] == 'e');
    }

    // the tool_use block decodes to the call itself
    let bl = tool_use_block_v(c);
    let bfs = bl->Obj_0;
    assert(bfs.drop_first() =~= seq![bfs[1], bfs[2], bfs[3]]);
    assert(bfs.drop_first().drop_first() =~= seq![bfs[2], bfs[3]]);
    assert(bfs.drop_first().drop_first().drop_first() =~= seq![bfs[3]]);
    assert(lookup_fields(bfs, "type"@) == Some(JsonV::Str("tool_use"@)));
    assert(lookup_fields(bfs, "id"@) == Some(JsonV::Str(c.id)));
    assert(lookup_fields(bfs, "name"@) == Some(JsonV::Str(c.name)));
    assert(lookup_fields(bfs, "input"@) == Some(c.input));
    assert(decode_anth_block(bl) == Ok::<BlockOut, ()>(BlockOut::Use(Some(c))));

    if m.content.len() == 0 {
        assert(blocks =~= seq![bl]);
        assert(blocks.drop_first() =~= Seq::<JsonV>::empty());
        assert(decode_anth_blocks(blocks.drop_first()) == Ok::<(
            Seq<Seq<char>>,
            Seq<Seq<char>>,
            Seq<ToolCallV>,
        ), ()>((Seq::empty(), Seq::empty(), Seq::empty())));
        assert(decode_anth_blocks(blocks) == Ok::<(
            Seq<Seq<char>>,
            Seq<Seq<char>>,
            Seq<ToolCallV>,
        ), ()>((Seq::empty(), Seq::empty(), seq![c] + Seq::empty())));
        let d = spec_decode_anthropic(status, body)->Ok_0;
        assert(d.calls =~= m.tool_calls);
        assert(d.content =~= m.content);
    } else {
        // a text block rides ahead of the tool_use block
        let tb = text_block_v(m.content, false);
        assert(blocks =~= seq![tb, bl]);
        let tfs = tb->Obj_0;
        assert(tfs.drop_first() =~= seq![tfs[1]]);
        assert(lookup_fields(tfs, "type"@) == Some(JsonV::Str("text"@)));
        assert(lookup_fields(tfs, "text"@) == Some(JsonV::Str(m.content)));
        assert(decode_anth_block(tb) == Ok::<BlockOut, ()>(BlockOut::Text(Some(m.content))));
        assert(blocks.drop_first() =~= seq![bl]);
        assert(blocks.drop_first().drop_first() =~= Seq::<JsonV>::empty());
        assert(decode_anth_blocks(blocks.drop_first().drop_first()) == Ok::<(
            Seq<Seq<char>>,
            Seq<Seq<char>>,
            Seq<ToolCallV>,
        ), ()>((Seq::empty(), Seq::empty(), Seq::empty())));
        assert(decode_anth_blocks(blocks.drop_first()) == Ok::<(
            Seq<Seq<char>>,
            Seq<Seq<char>>,
            Seq<ToolCallV>,
        ), ()>((Seq::empty(), Seq::empty(), seq![c] + Seq::empty())));
        assert(decode_anth_blocks(blocks) == Ok::<(
            Seq<Seq<char>>,
            Seq<Seq<char>>,
            Seq<ToolCallV>,
        ), ()>((seq![m.content] + Seq::empty(), Seq::empty(), seq![c] + Seq::empty())));
        let d = spec_decode_anthropic(status, body)->Ok_0;
        assert(d.calls =~= m.tool_calls);
        assert(join_spec(seq![m.content] + Seq::<Seq<char>>::empty(), Seq::empty())
            =~= m.content);
        assert(d.content =~= m.content);
    }
}

} // verus!
