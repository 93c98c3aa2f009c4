//! Request and response envelopes: decoding a parsed JSON value into a
//! request, and building the one-line text of a response.

use vstd::prelude::*;
use crate::json::{Json, JsonView, jview, jviewo, jget, group_json_view};
use crate::ser::{ser, dec_int, dec_string, to_text};

verus! {

/// JSON-RPC reserved code for a malformed line or envelope.
pub const PARSE_ERROR: i64 = -32700;

/// JSON-RPC reserved code for an unrecognized method.
pub const METHOD_NOT_FOUND: i64 = -32601;

/// JSON-RPC reserved code for missing or invalid parameters.
pub const INVALID_PARAMS: i64 = -32602;

/// A decoded request envelope. A request whose `id` is absent (or null) is
/// a notification and is never answered.
pub struct Request {
    pub jsonrpc: Option<String>,
    pub id: Option<Json>,
    pub method: String,
    pub params: Option<Json>,
}

/// The mathematical shape of a request.
pub struct ReqView {
    pub id: Option<JsonView>,
    pub method: Seq<char>,
    pub params: Option<JsonView>,
}

pub open spec fn opt_jview(o: Option<Json>) -> Option<JsonView> {
    match o {
        Some(j) => Some(jview(j)),
        None => None,
    }
}

impl View for Request {
    type V = ReqView;

    open spec fn view(&self) -> ReqView {
        ReqView { id: opt_jview(self.id), method: self.method@, params: opt_jview(self.params) }
    }
}

/// How a parsed value decodes into a request envelope: it must be an object
/// whose `method` field is a string; a `jsonrpc` field may be absent, null
/// or a string; a null `id` or `params` counts as absent.
pub open spec fn decode(v: JsonView) -> Option<ReqView> {
    match jget(v, "method"@) {
        Some(m) => if !(m is Str) {
            None
        } else {
            let rpc_ok = match jget(v, "jsonrpc"@) {
                None => true,
                Some(JsonView::Null) => true,
                Some(JsonView::Str(_)) => true,
                Some(_) => false,
            };
            if !rpc_ok {
                None
            } else {
                Some(
                    ReqView {
                        id: match jget(v, "id"@) {
                            None => None,
                            Some(JsonView::Null) => None,
                            Some(x) => Some(x),
                        },
                        method: m->Str_0,
                        params: match jget(v, "params"@) {
                            None => None,
                            Some(JsonView::Null) => None,
                            Some(x) => Some(x),
                        },
                    },
                )
            }
        },
        None => None,
    }
}

/// Decodes a parsed value into a request envelope, exactly as [`decode`]
/// says.
pub fn decode_request(v: &Json) -> (r: Option<Request>)
    ensures
        (match r {
            Some(req) => decode(v@) == Some(req@),
            None => decode(v@) is None,
        }),
{
    let m: String = match v.get("method") {
        Some(j) => match j.as_str() {
            Some(s) => s.clone(),
            None => {
                return None;
            },
        },
        None => {
            return None;
        },
    };
    let rpc: Option<String> = match v.get("jsonrpc") {
        None => None,
        Some(j) => match j {
            Json::Null => None,
            Json::Str(s) => Some(s.clone()),
            _ => {
                return None;
            },
        },
    };
    let id: Option<Json> = match v.get("id") {
        None => None,
        Some(j) => match j {
            Json::Null => None,
            _ => Some(j.dup()),
        },
    };
    let params: Option<Json> = match v.get("params") {
        None => None,
        Some(j) => match j {
            Json::Null => None,
            _ => Some(j.dup()),
        },
    };
    Some(Request { jsonrpc: rpc, id, method: m, params })
}

/// A response envelope as a JSON value: protocol version, the echoed id,
/// and exactly one of a result or an error.
pub open spec fn resp_jview(id: JsonView, result: Option<JsonView>, err: Option<(int, Seq<char>)>) -> JsonView {
    JsonView::Obj(
        seq![("jsonrpc"@, JsonView::Str("2.0"@)), ("id"@, id)] + (match result {
            Some(r) => seq![("result"@, r)],
            None => Seq::empty(),
        }) + (match err {
            Some(e) => seq![
                (
                    "error"@,
                    JsonView::Obj(
                        seq![
                            ("code"@, JsonView::Num(dec_int(e.0))),
                            ("message"@, JsonView::Str(e.1)),
                        ],
                    ),
                ),
            ],
            None => Seq::empty(),
        }),
    )
}

/// The serialized line of a success response.
pub open spec fn ok_text(id: JsonView, result: JsonView) -> Seq<char> {
    ser(resp_jview(id, Some(result), None))
}

/// The serialized line of an error response.
pub open spec fn err_text(id: JsonView, code: int, msg: Seq<char>) -> Seq<char> {
    ser(resp_jview(id, None, Some((code, msg))))
}

/// Builds the one-line text of a success response.
pub fn ok_response(id: Json, result: Json) -> (r: String)
    ensures
        r@ == ok_text(jview(id), jview(result)),
{
    broadcast use group_json_view;

    let ghost idv = jview(id);
    let ghost resv = jview(result);
    let mut entries: Vec<(String, Json)> = Vec::new();
    entries.push((String::from_str("jsonrpc"), Json::Str(String::from_str("2.0"))));
    entries.push((String::from_str("id"), id));
    entries.push((String::from_str("result"), result));
    let out = Json::Obj(entries);
    proof {
        assert(jviewo(out->Obj_0@) =~= resp_jview(idv, Some(resv), None)->Obj_0);
    }
    to_text(&out)
}

/// Builds the one-line text of an error response.
pub fn err_response(id: Json, code: i64, msg: String) -> (r: String)
    ensures
        r@ == err_text(jview(id), code as int, msg@),
{
    broadcast use group_json_view;

    let ghost idv = jview(id);
    let ghost msgv = msg@;
    let mut err_entries: Vec<(String, Json)> = Vec::new();
    let code_lit = dec_string(code);
    err_entries.push((String::from_str("code"), Json::Num(code_lit)));
    err_entries.push((String::from_str("message"), Json::Str(msg)));
    let ghost ev = err_entries@;
    let err_obj = Json::Obj(err_entries);
    proof {
        assert(jview(err_obj) == JsonView::Obj(jviewo(ev)));
        assert(jviewo(ev) =~= seq![
            ("code"@, JsonView::Num(dec_int(code as int))),
            ("message"@, JsonView::Str(msgv)),
        ]);
    }
    let mut entries: Vec<(String, Json)> = Vec::new();
    entries.push((String::from_str("jsonrpc"), Json::Str(String::from_str("2.0"))));
    entries.push((String::from_str("id"), id));
    entries.push((String::from_str("error"), err_obj));
    let out = Json::Obj(entries);
    proof {
        assert(jviewo(out->Obj_0@) =~= resp_jview(idv, None, Some((code as int, msgv)))->Obj_0);
    }
    to_text(&out)
}

} // verus!
