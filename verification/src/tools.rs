//! The static tool registry: one `bash` tool whose input schema requires a
//! string field `command`.

use vstd::prelude::*;
use crate::json::{Json, JsonV, wf_json, views_of_fields, views_of_json, obj_of, arr_of, push_field};
use crate::types::Tool;

verus! {

/// The JSON schema of the `bash` tool's input, fields in the order the
/// registry serializes them.
pub open spec fn bash_tool_schema_v() -> JsonV {
    JsonV::Obj(
        seq![
            (
                "properties"@,
                JsonV::Obj(
                    seq![
                        (
                            "command"@,
                            JsonV::Obj(
                                seq![
                                    ("description"@, JsonV::Str("Shell command to run."@)),
                                    ("type"@, JsonV::Str("string"@)),
                                ],
                            ),
                        ),
                    ],
                ),
            ),
            ("required"@, JsonV::Arr(seq![JsonV::Str("command"@)])),
            ("type"@, JsonV::Str("object"@)),
        ],
    )
}

/// The one tool this agent offers the model.
pub fn bash_tool() -> (r: Tool)
    ensures
        r@.name == "bash"@,
        r@.description == "Execute a shell command in the workspace."@,
        r@.input_schema == bash_tool_schema_v(),
        wf_json(r@.input_schema),
{
    let mut command_fs: Vec<(Vec<char>, Json)> = Vec::new();
    push_field(&mut command_fs, "description", Json::of_str("Shell command to run."));
    push_field(&mut command_fs, "type", Json::of_str("string"));
    let command_obj = obj_of(command_fs);
    proof {
        assert(views_of_fields(command_fs@) =~= seq![
            ("description"@, JsonV::Str("Shell command to run."@)),
            ("type"@, JsonV::Str("string"@)),
        ]);
    }
    let mut props_fs: Vec<(Vec<char>, Json)> = Vec::new();
    push_field(&mut props_fs, "command", command_obj);
    let props = obj_of(props_fs);
    let mut req_items: Vec<Json> = Vec::new();
    req_items.push(Json::of_str("command"));
    let required = arr_of(req_items);
    proof {
        assert(views_of_json(req_items@) =~= seq![JsonV::Str("command"@)]);
    }
    let mut fs: Vec<(Vec<char>, Json)> = Vec::new();
    push_field(&mut fs, "properties", props);
    push_field(&mut fs, "required", required);
    push_field(&mut fs, "type", Json::of_str("object"));
    let schema = obj_of(fs);
    proof {
        assert(views_of_fields(props_fs@) =~= bash_tool_schema_v()->Obj_0[0].1->Obj_0);
        assert(views_of_fields(fs@) =~= bash_tool_schema_v()->Obj_0);
        let sv = bash_tool_schema_v();
        let props_v = sv->Obj_0[0].1;
        let cmd_v = props_v->Obj_0[0].1;
        assert forall|i: int| 0 <= i < cmd_v->Obj_0.len() implies wf_json(
            #[trigger] cmd_v->Obj_0[i].1,
        ) by {}
        assert(wf_json(cmd_v));
        assert forall|i: int| 0 <= i < props_v->Obj_0.len() implies wf_json(
            #[trigger] props_v->Obj_0[i].1,
        ) by {}
        assert(wf_json(props_v));
        let req_v = sv->Obj_0[1].1;
        assert forall|i: int| 0 <= i < req_v->Arr_0.len() implies wf_json(
            #[trigger] req_v->Arr_0[i],
        ) by {}
        assert(wf_json(req_v));
        assert forall|i: int| 0 <= i < sv->Obj_0.len() implies wf_json(
            #[trigger] sv->Obj_0[i].1,
        ) by {}
        assert(wf_json(sv));
    }
    Tool {
        name: "bash".to_owned(),
        description: "Execute a shell command in the workspace.".to_owned(),
        input_schema: schema,
    }
}

} // verus!
