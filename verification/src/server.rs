//! One step of the session loop: a line of input in, the action it asks
//! for out. The loop around it owns the transport; everything decided here
//! is a pure function of the line, pinned by [`line_act`].

use vstd::prelude::*;
use crate::json::{Json, JsonView, jview, jviewo, jget, group_json_view};
use crate::text::{str_chars, is_blank, is_blank_x};
use crate::parse::{parse_text, parse_chars};
use crate::envelope::{
    decode, decode_request, ok_text, err_text, ok_response, err_response, opt_jview,
    PARSE_ERROR, METHOD_NOT_FOUND, INVALID_PARAMS,
};
use crate::registry::{tools_result, tools_result_x};
use crate::invoke::{
    ToolAction, ActionView, plan_tool, plan_tool_x, get_str_or, get_str_or_x, tool_result_view,
    tool_result_x,
};
use vstd::string::StringExecFns;

verus! {

/// What one input line asks the session loop to do: nothing, write one
/// response line, or perform a tool action and then write the response
/// built from its outcome.
pub enum LineAction {
    Silent,
    Respond(String),
    Invoke { id: Json, call: ToolAction },
}

/// The mathematical shape of a [`LineAction`].
pub enum ActView {
    Silent,
    Respond(Seq<char>),
    Invoke { id: JsonView, call: ActionView },
}

impl View for LineAction {
    type V = ActView;

    open spec fn view(&self) -> ActView {
        match self {
            LineAction::Silent => ActView::Silent,
            LineAction::Respond(s) => ActView::Respond(s@),
            LineAction::Invoke { id, call } => ActView::Invoke { id: jview(*id), call: call@ },
        }
    }
}

/// The message of a response to a line that is not valid JSON.
pub open spec fn parse_err_msg() -> Seq<char> {
    "Parse error: invalid JSON"@
}

/// The message of a response to a valid JSON line that is no request
/// envelope.
pub open spec fn envelope_err_msg() -> Seq<char> {
    "Parse error: invalid request envelope"@
}

/// What `initialize` returns: protocol version, capabilities, and the
/// server's identity.
pub open spec fn init_result() -> JsonView {
    JsonView::Obj(
        seq![
            ("protocolVersion"@, JsonView::Str("2024-11-05"@)),
            ("capabilities"@, JsonView::Obj(seq![("tools"@, JsonView::Obj(Seq::empty()))])),
            (
                "serverInfo"@,
                JsonView::Obj(
                    seq![
                        ("name"@, JsonView::Str("m3u8-mcp"@)),
                        ("version"@, JsonView::Str("0.1.0"@)),
                    ],
                ),
            ),
        ],
    )
}

/// What a `tools/call` with present params asks for: the planned action
/// for a known tool name, or an immediate error-marked result naming the
/// unknown tool.
pub open spec fn tool_call_act(id: JsonView, p: JsonView) -> ActView {
    let name = get_str_or(p, "name"@, ""@);
    let args = match jget(p, "arguments"@) {
        Some(a) => a,
        None => JsonView::Obj(Seq::empty()),
    };
    match plan_tool(name, args) {
        Some(a) => ActView::Invoke { id, call: a },
        None => ActView::Respond(ok_text(id, tool_result_view("Unknown tool: "@ + name, true))),
    }
}

/// Routing by exact method name, for a request that carries an id.
pub open spec fn dispatch(m: Seq<char>, params: Option<JsonView>, id: JsonView) -> ActView {
    if m == "initialize"@ {
        ActView::Respond(ok_text(id, init_result()))
    } else if m == "tools/list"@ {
        ActView::Respond(ok_text(id, tools_result()))
    } else if m == "tools/call"@ {
        match params {
            None => ActView::Respond(err_text(id, INVALID_PARAMS as int, "Missing params"@)),
            Some(p) => tool_call_act(id, p),
        }
    } else if m == "ping"@ {
        ActView::Respond(ok_text(id, JsonView::Obj(Seq::empty())))
    } else {
        ActView::Respond(err_text(id, METHOD_NOT_FOUND as int, "Method not found: "@ + m))
    }
}

/// Everything one line asks for: blank lines are skipped; a line that does
/// not parse, or parses to no envelope, draws a parse error with a null
/// id; a notification is consumed silently; everything else is dispatched.
pub open spec fn line_act(l: Seq<char>) -> ActView {
    if is_blank(l) {
        ActView::Silent
    } else {
        match parse_text(l) {
            None => ActView::Respond(
                err_text(JsonView::Null, PARSE_ERROR as int, parse_err_msg()),
            ),
            Some(v) => match decode(v) {
                None => ActView::Respond(
                    err_text(JsonView::Null, PARSE_ERROR as int, envelope_err_msg()),
                ),
                Some(req) => match req.id {
                    None => ActView::Silent,
                    Some(id) => dispatch(req.method, req.params, id),
                },
            },
        }
    }
}

fn init_result_x() -> (r: Json)
    ensures
        jview(r) == init_result(),
{
    broadcast use group_json_view;

    let caps_inner: Vec<(String, Json)> = Vec::new();
    let ghost civ = caps_inner@;
    let tools_obj = Json::Obj(caps_inner);
    proof {
        assert(jview(tools_obj) == JsonView::Obj(jviewo(civ)));
        assert(jviewo(civ) =~= Seq::<(Seq<char>, JsonView)>::empty());
    }
    let mut caps: Vec<(String, Json)> = Vec::new();
    caps.push((String::from_str("tools"), tools_obj));
    let ghost cv = caps@;
    let caps_obj = Json::Obj(caps);
    proof {
        assert(jview(caps_obj) == JsonView::Obj(jviewo(cv)));
        assert(jviewo(cv) =~= seq![("tools"@, JsonView::Obj(Seq::<(Seq<char>, JsonView)>::empty()))]);
    }
    let mut info: Vec<(String, Json)> = Vec::new();
    info.push((String::from_str("name"), Json::Str(String::from_str("m3u8-mcp"))));
    info.push((String::from_str("version"), Json::Str(String::from_str("0.1.0"))));
    let ghost iv = info@;
    let info_obj = Json::Obj(info);
    proof {
        assert(jview(info_obj) == JsonView::Obj(jviewo(iv)));
        assert(jviewo(iv) =~= seq![
            ("name"@, JsonView::Str("m3u8-mcp"@)),
            ("version"@, JsonView::Str("0.1.0"@)),
        ]);
    }
    let mut es: Vec<(String, Json)> = Vec::new();
    es.push((String::from_str("protocolVersion"), Json::Str(String::from_str("2024-11-05"))));
    es.push((String::from_str("capabilities"), caps_obj));
    es.push((String::from_str("serverInfo"), info_obj));
    let ghost ev = es@;
    let r = Json::Obj(es);
    proof {
        assert(jview(r) == JsonView::Obj(jviewo(ev)));
        assert(jviewo(ev) =~= init_result()->Obj_0);
    }
    r
}

fn tool_call_x(id: Json, p: &Json) -> (r: LineAction)
    ensures
        r@ == tool_call_act(jview(id), p@),
{
    broadcast use group_json_view;

    let name = get_str_or_x(p, "name", "");
    let args: Json = match p.get("arguments") {
        Some(a) => a.dup(),
        None => {
            let empty_args: Vec<(String, Json)> = Vec::new();
            let ghost eav = empty_args@;
            let a = Json::Obj(empty_args);
            proof {
                assert(jview(a) == JsonView::Obj(jviewo(eav)));
                assert(jviewo(eav) =~= Seq::<(Seq<char>, JsonView)>::empty());
            }
            a
        },
    };
    match plan_tool_x(&name, &args) {
        Some(a) => LineAction::Invoke { id, call: a },
        None => {
            let text = String::from_str("Unknown tool: ").concat(name.as_str());
            let result = tool_result_x(text, true);
            LineAction::Respond(ok_response(id, result))
        },
    }
}

/// Routes one request that carries an id, exactly as [`dispatch`] says.
pub fn dispatch_request(method: &String, params: Option<Json>, id: Json) -> (r: LineAction)
    ensures
        r@ == dispatch(method@, opt_jview(params), jview(id)),
{
    broadcast use group_json_view;

    if *method == String::from_str("initialize") {
        LineAction::Respond(ok_response(id, init_result_x()))
    } else if *method == String::from_str("tools/list") {
        LineAction::Respond(ok_response(id, tools_result_x()))
    } else if *method == String::from_str("tools/call") {
        match params {
            None => LineAction::Respond(
                err_response(id, INVALID_PARAMS, String::from_str("Missing params")),
            ),
            Some(p) => tool_call_x(id, &p),
        }
    } else if *method == String::from_str("ping") {
        let empty_res: Vec<(String, Json)> = Vec::new();
        let ghost erv = empty_res@;
        let res = Json::Obj(empty_res);
        proof {
            assert(jview(res) == JsonView::Obj(jviewo(erv)));
            assert(jviewo(erv) =~= Seq::<(Seq<char>, JsonView)>::empty());
        }
        LineAction::Respond(ok_response(id, res))
    } else {
        let msg = String::from_str("Method not found: ").concat(method.as_str());
        LineAction::Respond(err_response(id, METHOD_NOT_FOUND, msg))
    }
}

/// Handles one input line, exactly as [`line_act`] says. The result is a
/// pure function of the line: no state survives from one line to the next,
/// so no line can affect how a later one is handled.
pub fn handle_line(line: &str) -> (r: LineAction)
    ensures
        r@ == line_act(line@),
{
    let cs = str_chars(line);
    if is_blank_x(&cs) {
        return LineAction::Silent;
    }
    let v = match parse_chars(&cs) {
        Some(v) => v,
        None => {
            return LineAction::Respond(
                err_response(Json::Null, PARSE_ERROR, String::from_str("Parse error: invalid JSON")),
            );
        },
    };
    let req = match decode_request(&v) {
        Some(r) => r,
        None => {
            return LineAction::Respond(
                err_response(
                    Json::Null,
                    PARSE_ERROR,
                    String::from_str("Parse error: invalid request envelope"),
                ),
            );
        },
    };
    match req.id {
        None => LineAction::Silent,
        Some(id) => dispatch_request(&req.method, req.params, id),
    }
}

} // verus!
