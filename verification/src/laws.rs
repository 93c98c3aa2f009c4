//! The library's laws: what holds of every line, stated over the spec
//! functions that the executable functions are proved against.

use vstd::prelude::*;
use crate::json::{JsonView, wf, wfs, wfo, wfs_all, wfo_all, wf_num, num_char, obj_get, jget};
use crate::text::{is_blank, blank_char};
use crate::parse::{
    parse_text, parse_value, parse_elems, parse_members, parse_str_body, num_end, digits_end,
    is_digit, skip_ws, json_ws, MAX_DEPTH,
};
use crate::envelope::{
    decode, ReqView, err_text, resp_jview, PARSE_ERROR, METHOD_NOT_FOUND, INVALID_PARAMS,
};
use crate::ser::{ser, ser_items, ser_members, ser_string, esc, esc_all, hexchars, dec_nat, dec_int};
use crate::server::{line_act, dispatch, tool_call_act, ActView, parse_err_msg, envelope_err_msg};
use crate::invoke::{
    known_tool, plan_tool, segs_of, filter_keep, split_lines_from, find_nl, strip_cr, keep_line,
};
use crate::registry::registry_names;

verus! {

proof fn skip_ws_stop(s: Seq<char>, i: int)
    requires
        0 <= i <= s.len(),
    ensures
        i <= skip_ws(s, i) <= s.len(),
        skip_ws(s, i) < s.len() ==> !json_ws(s[skip_ws(s, i)]),
    decreases s.len() - i,
{
    if i < s.len() && json_ws(s[i]) {
        skip_ws_stop(s, i + 1);
    }
}

/// A blank line is not valid JSON: nothing but whitespace can start no
/// value.
proof fn lemma_blank_parses_none(l: Seq<char>)
    requires
        is_blank(l),
    ensures
        parse_text(l) is None,
{
    skip_ws_stop(l, 0);
    let i = skip_ws(l, 0);
    if i < l.len() {
        assert(blank_char(l[i]));
        assert(parse_value(l, i, MAX_DEPTH as int) is None);
    } else {
        assert(parse_value(l, i, MAX_DEPTH as int) is None);
    }
}

proof fn lemma_parsed_not_blank(l: Seq<char>, v: JsonView)
    requires
        parse_text(l) == Some(v),
    ensures
        !is_blank(l),
{
    if is_blank(l) {
        lemma_blank_parses_none(l);
    }
}

/// A blank or whitespace-only line asks for nothing. Each line's action is
/// a pure function of that line alone, so a blank line also cannot change
/// how any later line is handled.
pub proof fn lemma_blank_line_is_silent(l: Seq<char>)
    requires
        is_blank(l),
    ensures
        line_act(l) == ActView::Silent,
{
}

/// A request without an id is a notification: it is consumed silently,
/// before any dispatch.
pub proof fn lemma_notification_is_silent(l: Seq<char>, v: JsonView, req: ReqView)
    requires
        parse_text(l) == Some(v),
        decode(v) == Some(req),
        req.id is None,
    ensures
        line_act(l) == ActView::Silent,
{
    lemma_parsed_not_blank(l, v);
}

/// The action for a response carrying exactly the request's id: either one
/// response line whose envelope echoes that id, or a tool invocation that
/// carries the id into its eventual response.
pub open spec fn answers_id(a: ActView, id: JsonView) -> bool {
    match a {
        ActView::Silent => false,
        ActView::Respond(t) => exists|res: Option<JsonView>, err: Option<(int, Seq<char>)>|
            t == ser(#[trigger] resp_jview(id, res, err)),
        ActView::Invoke { id: got, call: _ } => got == id,
    }
}

/// Every valid request with a present id draws exactly one answer, and
/// that answer echoes the id as it came.
pub proof fn lemma_request_with_id_is_answered(
    l: Seq<char>,
    v: JsonView,
    req: ReqView,
    id: JsonView,
)
    requires
        parse_text(l) == Some(v),
        decode(v) == Some(req),
        req.id == Some(id),
    ensures
        line_act(l) == dispatch(req.method, req.params, id),
        answers_id(line_act(l), id),
{
    lemma_parsed_not_blank(l, v);
    let m = req.method;
    let a = dispatch(m, req.params, id);
    if m == "initialize"@ || m == "tools/list"@ || m == "ping"@ {
        assert(answers_id(a, id));
    } else if m == "tools/call"@ {
        match req.params {
            None => {
                assert(answers_id(a, id));
            },
            Some(p) => {
                match tool_call_act(id, p) {
                    ActView::Silent => {
                        assert(false);
                    },
                    ActView::Respond(t) => {
                        assert(answers_id(a, id));
                    },
                    ActView::Invoke { .. } => {
                        assert(answers_id(a, id));
                    },
                }
            },
        }
    } else {
        assert(answers_id(a, id));
    }
}

/// A line that is not valid JSON, or is no request envelope, draws a parse
/// error response whose code is the reserved parse error code and whose id
/// is null.
pub proof fn lemma_malformed_line_gets_parse_error(l: Seq<char>)
    requires
        !is_blank(l),
    ensures
        parse_text(l) is None ==> line_act(l) == ActView::Respond(
            err_text(JsonView::Null, PARSE_ERROR as int, parse_err_msg()),
        ),
        (match parse_text(l) {
            Some(v) => decode(v) is None ==> line_act(l) == ActView::Respond(
                err_text(JsonView::Null, PARSE_ERROR as int, envelope_err_msg()),
            ),
            None => true,
        }),
{
}

/// An unrecognized method draws a method-not-found error whose message
/// carries the submitted method name verbatim.
pub proof fn lemma_unknown_method(l: Seq<char>, v: JsonView, req: ReqView, id: JsonView)
    requires
        parse_text(l) == Some(v),
        decode(v) == Some(req),
        req.id == Some(id),
        req.method != "initialize"@,
        req.method != "tools/list"@,
        req.method != "tools/call"@,
        req.method != "ping"@,
    ensures
        line_act(l) == ActView::Respond(
            err_text(id, METHOD_NOT_FOUND as int, "Method not found: "@ + req.method),
        ),
{
    lemma_parsed_not_blank(l, v);
}

/// `tools/call` without params draws an invalid-params error.
pub proof fn lemma_tools_call_missing_params(l: Seq<char>, v: JsonView, req: ReqView, id: JsonView)
    requires
        parse_text(l) == Some(v),
        decode(v) == Some(req),
        req.id == Some(id),
        req.method == "tools/call"@,
        req.params is None,
    ensures
        line_act(l) == ActView::Respond(err_text(id, INVALID_PARAMS as int, "Missing params"@)),
{
    lemma_parsed_not_blank(l, v);
    reveal_strlit("tools/call");
    reveal_strlit("initialize");
    reveal_strlit("tools/list");
    assert("tools/call"@.len() == 10);
    assert("initialize"@.len() == 10);
    assert("tools/list"@.len() == 10);
    assert("tools/call"@[6] == 'c' && "tools/list"@[6] == 'l');
    assert("tools/call"@[0] == 't' && "initialize"@[0] == 'i');
    assert(req.method != "initialize"@);
    assert(req.method != "tools/list"@);
}

/// The registry and the invoker stay in lockstep: the invoker plans an
/// action exactly for the names the registry lists, and for no others.
/// Together with the registry lemma that each listed descriptor carries
/// its name, this ties `tools/list` to `tools/call`.
pub proof fn lemma_registry_invoker_sync()
    ensures
        forall|n: Seq<char>| #[trigger] known_tool(n) <==> registry_names().contains(n),
        forall|n: Seq<char>, args: JsonView|
            #[trigger] plan_tool(n, args) is Some <==> known_tool(n),
{
    assert forall|n: Seq<char>| #[trigger] known_tool(n) <==> registry_names().contains(n) by {
        if known_tool(n) {
            if n == "m3u8_parse"@ {
                assert(registry_names()[0] == n);
            } else if n == "m3u8_download"@ {
                assert(registry_names()[1] == n);
            } else if n == "m3u8_probe"@ {
                assert(registry_names()[2] == n);
            } else if n == "m3u8_extract_segments"@ {
                assert(registry_names()[3] == n);
            } else {
                assert(registry_names()[4] == n);
            }
            assert(registry_names().contains(n));
        }
        if registry_names().contains(n) {
            let i = choose|i: int| 0 <= i < registry_names().len() && registry_names()[i] == n;
            assert(known_tool(n));
        }
    }
}

/// Text that stays on one line: no line feed anywhere in it.
pub open spec fn one_line(s: Seq<char>) -> bool {
    forall|i: int| 0 <= i < s.len() ==> s[i] != '\n'
}

proof fn lemma_esc_one_line(c: char)
    ensures
        one_line(esc(c)),
{
}

proof fn lemma_esc_all_one_line(s: Seq<char>)
    ensures
        one_line(esc_all(s)),
    decreases s.len(),
{
    if s.len() > 0 {
        lemma_esc_all_one_line(s.drop_last());
        lemma_esc_one_line(s.last());
    }
}

proof fn lemma_ser_string_one_line(s: Seq<char>)
    ensures
        one_line(ser_string(s)),
{
    lemma_esc_all_one_line(s);
}

proof fn lemma_ser_one_line(v: JsonView)
    requires
        wf(v),
    ensures
        one_line(ser(v)),
    decreases v, 1int,
{
    match v {
        JsonView::Null => {},
        JsonView::Bool(_) => {},
        JsonView::Num(s) => {
            assert forall|i: int| 0 <= i < s.len() implies s[i] != '\n' by {
                assert(num_char(s[i]));
            }
        },
        JsonView::Str(s) => {
            lemma_ser_string_one_line(s);
        },
        JsonView::Arr(es) => {
            assert(es == v->Arr_0);
            assert(decreases_to!(v => v->Arr_0));
            lemma_ser_items_one_line(es);
        },
        JsonView::Obj(es) => {
            assert(es == v->Obj_0);
            assert(decreases_to!(v => v->Obj_0));
            lemma_ser_members_one_line(es);
        },
    }
}

proof fn lemma_ser_items_one_line(s: Seq<JsonView>)
    requires
        wfs(s),
    ensures
        one_line(ser_items(s)),
    decreases s, 0int,
{
    if s.len() > 0 {
        assert(decreases_to!(s => s.last()));
        vstd::seq::axiom_seq_len_decreases(s, s.drop_last());
        lemma_ser_items_one_line(s.drop_last());
        lemma_ser_one_line(s.last());
    }
}

proof fn lemma_ser_members_one_line(s: Seq<(Seq<char>, JsonView)>)
    requires
        wfo(s),
    ensures
        one_line(ser_members(s)),
    decreases s, 0int,
{
    if s.len() > 0 {
        assert(decreases_to!(s => s.last()));
        assert(decreases_to!(s.last() => s.last().1));
        vstd::seq::axiom_seq_len_decreases(s, s.drop_last());
        lemma_ser_members_one_line(s.drop_last());
        lemma_ser_string_one_line(s.last().0);
        lemma_ser_one_line(s.last().1);
    }
}

proof fn lemma_dec_nat_wf(n: nat)
    ensures
        wf_num(dec_nat(n)),
    decreases n,
{
    if n < 10 {
        assert(num_char(hexchars()[n as int]));
    } else {
        lemma_dec_nat_wf(n / 10);
        assert(num_char(hexchars()[(n % 10) as int]));
    }
}

proof fn lemma_dec_int_wf(n: int)
    ensures
        wf_num(dec_int(n)),
{
    if n < 0 {
        lemma_dec_nat_wf((-n) as nat);
    } else {
        lemma_dec_nat_wf(n as nat);
    }
}

proof fn lemma_err_entry_wf(err: Option<(int, Seq<char>)>)
    ensures
        (match err {
            Some(e) => wf(
                JsonView::Obj(
                    seq![
                        ("code"@, JsonView::Num(dec_int(e.0))),
                        ("message"@, JsonView::Str(e.1)),
                    ],
                ),
            ),
            None => true,
        }),
{
    broadcast use wfo_all;

    match err {
        Some(e) => {
            lemma_dec_int_wf(e.0);
            let inner = seq![("code"@, JsonView::Num(dec_int(e.0))), ("message"@, JsonView::Str(e.1))];
            assert forall|j: int| 0 <= j < inner.len() implies wf((#[trigger] inner[j]).1) by {
                if j == 0 {
                    assert(inner[j].1 == JsonView::Num(dec_int(e.0)));
                } else {
                    assert(inner[j].1 == JsonView::Str(e.1));
                }
            }
            assert(wfo(inner));
        },
        None => {},
    }
}

/// A response envelope is well-formed, and its line stays one line, as
/// soon as the id and the result it carries are well-formed; the only
/// number the envelope itself adds is the error code's decimal text.
proof fn lemma_resp_one_line(id: JsonView, result: Option<JsonView>, err: Option<(int, Seq<char>)>)
    requires
        wf(id),
        (match result {
            Some(r) => wf(r),
            None => true,
        }),
    ensures
        one_line(ser(resp_jview(id, result, err))),
{
    broadcast use wfs_all;
    broadcast use wfo_all;

    let v = resp_jview(id, result, err);
    let es = v->Obj_0;
    assert forall|i: int| 0 <= i < es.len() implies wf((#[trigger] es[i]).1) by {
        if i == 0 {
            assert(es[i].1 == JsonView::Str("2.0"@));
        } else if i == 1 {
            assert(es[i].1 == id);
        } else {
            match result {
                Some(r) => {
                    if i == 2 {
                        assert(es[i].1 == r);
                    } else {
                        lemma_err_entry_wf(err);
                    }
                },
                None => {
                    lemma_err_entry_wf(err);
                },
            }
        }
    }
    assert(wfo(es));
    lemma_ser_one_line(v);
}

proof fn lemma_digits_region(s: Seq<char>, i: int)
    requires
        0 <= i <= s.len(),
    ensures
        i <= digits_end(s, i) <= s.len(),
        forall|k: int| i <= k < digits_end(s, i) ==> is_digit(s[k]),
    decreases s.len() - i,
{
    if i < s.len() && is_digit(s[i]) {
        lemma_digits_region(s, i + 1);
    }
}

/// Every number token the grammar accepts is made of number characters.
proof fn lemma_num_wf(s: Seq<char>, i: int)
    requires
        0 <= i <= s.len(),
        num_end(s, i) is Some,
    ensures
        (match num_end(s, i) {
            Some(e) => i < e <= s.len() && wf_num(s.subrange(i, e)),
            None => true,
        }),
{
    let e = num_end(s, i)->0;
    let istart = if i < s.len() && s[i] == '-' {
        i + 1
    } else {
        i
    };
    assert(istart < s.len() && is_digit(s[istart]));
    let int_end = if s[istart] == '0' {
        istart + 1
    } else {
        digits_end(s, istart)
    };
    lemma_digits_region(s, istart);
    assert(digits_end(s, istart) == digits_end(s, istart + 1));
    lemma_digits_region(s, istart + 1);
    assert(int_end > istart);
    let frac_end = if int_end < s.len() && s[int_end] == '.' {
        digits_end(s, int_end + 1)
    } else {
        int_end
    };
    if int_end < s.len() && s[int_end] == '.' {
        lemma_digits_region(s, int_end + 1);
    }
    if frac_end < s.len() && (s[frac_end] == 'e' || s[frac_end] == 'E') {
        let estart = if frac_end + 1 < s.len() && (s[frac_end + 1] == '+' || s[frac_end + 1]
            == '-') {
            frac_end + 2
        } else {
            frac_end + 1
        };
        lemma_digits_region(s, estart);
        assert forall|k: int| i <= k < e implies num_char(s[k]) by {
            if k == i && s[i] == '-' {
            } else if k < int_end {
                assert(is_digit(s[k]));
            } else if k == int_end {
            } else if k < frac_end {
                assert(is_digit(s[k]));
            } else if k == frac_end {
            } else if k < estart {
            } else {
                assert(is_digit(s[k]));
            }
        }
    } else {
        assert forall|k: int| i <= k < e implies num_char(s[k]) by {
            if k == i && s[i] == '-' {
            } else if k < int_end {
                assert(is_digit(s[k]));
            } else if k == int_end {
            } else {
                assert(is_digit(s[k]));
            }
        }
    }
    assert forall|k: int| 0 <= k < e - i implies num_char(s.subrange(i, e)[k]) by {
        assert(s.subrange(i, e)[k] == s[i + k]);
        assert(num_char(s[i + k]));
    }
}

/// Every value the parser returns is well-formed: its number literals hold
/// number characters only.
proof fn lemma_parse_value_wf(s: Seq<char>, i: int, depth: int)
    requires
        0 <= i <= s.len(),
    ensures
        (match parse_value(s, i, depth) {
            Some(p) => wf(p.0),
            None => true,
        }),
    decreases s.len() - i, 0int,
{
    broadcast use wfs_all;
    broadcast use wfo_all;

    if i < s.len() {
        let c = s[i];
        if c == '[' && depth > 0 {
            skip_ws_stop(s, i + 1);
            let j = skip_ws(s, i + 1);
            if j < s.len() && s[j] == ']' {
            } else {
                lemma_parse_elems_wf(s, j, depth - 1);
            }
        } else if c == '{' && depth > 0 {
            skip_ws_stop(s, i + 1);
            let j = skip_ws(s, i + 1);
            if j < s.len() && s[j] == '}' {
            } else {
                lemma_parse_members_wf(s, j, depth - 1);
            }
        } else if c == '-' || is_digit(c) {
            if num_end(s, i) is Some {
                lemma_num_wf(s, i);
            }
        }
    }
}

proof fn lemma_parse_elems_wf(s: Seq<char>, i: int, depth: int)
    requires
        0 <= i <= s.len(),
    ensures
        (match parse_elems(s, i, depth) {
            Some(p) => wfs(p.0),
            None => true,
        }),
    decreases s.len() - i, 1int,
{
    broadcast use wfs_all;

    lemma_parse_value_wf(s, i, depth);
    match parse_value(s, i, depth) {
        None => {},
        Some(p) => {
            if 0 <= p.1 <= s.len() {
                skip_ws_stop(s, p.1);
                let j = skip_ws(s, p.1);
                if j < s.len() && s[j] == ',' {
                    skip_ws_stop(s, j + 1);
                    let k = skip_ws(s, j + 1);
                    if k > i {
                        lemma_parse_elems_wf(s, k, depth);
                        match parse_elems(s, k, depth) {
                            Some(q) => {
                                assert forall|t: int|
                                    0 <= t < (seq![p.0] + q.0).len() implies wf(
                                    #[trigger] (seq![p.0] + q.0)[t],
                                ) by {
                                    if t > 0 {
                                        assert((seq![p.0] + q.0)[t] == q.0[t - 1]);
                                    }
                                }
                            },
                            None => {},
                        }
                    }
                } else if j < s.len() && s[j] == ']' {
                    assert(wfs(seq![p.0]));
                }
            }
        },
    }
}

proof fn lemma_parse_members_wf(s: Seq<char>, i: int, depth: int)
    requires
        0 <= i <= s.len(),
    ensures
        (match parse_members(s, i, depth) {
            Some(p) => wfo(p.0),
            None => true,
        }),
    decreases s.len() - i, 1int,
{
    broadcast use wfo_all;

    if i < s.len() && s[i] == '"' {
        match parse_str_body(s, i + 1) {
            None => {},
            Some(kp) => {
                if 0 <= kp.1 <= s.len() {
                    skip_ws_stop(s, kp.1);
                    let j = skip_ws(s, kp.1);
                    if j < s.len() && s[j] == ':' {
                        skip_ws_stop(s, j + 1);
                        let kv = skip_ws(s, j + 1);
                        if kv >= i {
                            lemma_parse_value_wf(s, kv, depth);
                            match parse_value(s, kv, depth) {
                                None => {},
                                Some(vp) => {
                                    if 0 <= vp.1 <= s.len() {
                                        skip_ws_stop(s, vp.1);
                                        let j2 = skip_ws(s, vp.1);
                                        if j2 < s.len() && s[j2] == ',' {
                                            skip_ws_stop(s, j2 + 1);
                                            let k = skip_ws(s, j2 + 1);
                                            if k > i {
                                                lemma_parse_members_wf(s, k, depth);
                                                match parse_members(s, k, depth) {
                                                    Some(q) => {
                                                        assert forall|t: int|
                                                            0 <= t < (seq![(kp.0, vp.0)]
                                                                + q.0).len() implies wf(
                                                            (#[trigger] (seq![(kp.0, vp.0)]
                                                                + q.0)[t]).1,
                                                        ) by {
                                                            if t > 0 {
                                                                assert((seq![(kp.0, vp.0)]
                                                                    + q.0)[t] == q.0[t - 1]);
                                                            }
                                                        }
                                                    },
                                                    None => {},
                                                }
                                            }
                                        } else if j2 < s.len() && s[j2] == '}' {
                                            assert(wfo(seq![(kp.0, vp.0)]));
                                        }
                                    }
                                },
                            }
                        }
                    }
                }
            },
        }
    }
}

/// Every value a whole line parses to is well-formed.
pub proof fn lemma_parsed_wf(l: Seq<char>, v: JsonView)
    requires
        parse_text(l) == Some(v),
    ensures
        wf(v),
{
    skip_ws_stop(l, 0);
    lemma_parse_value_wf(l, skip_ws(l, 0), MAX_DEPTH as int);
}

/// A field of a well-formed object is well-formed.
proof fn lemma_obj_get_wf(es: Seq<(Seq<char>, JsonView)>, k: Seq<char>)
    requires
        wfo(es),
    ensures
        (match obj_get(es, k) {
            Some(x) => wf(x),
            None => true,
        }),
    decreases es.len(),
{
    broadcast use wfo_all;

    if es.len() > 0 && es.last().0 != k {
        lemma_obj_get_wf(es.drop_last(), k);
    }
}

proof fn lemma_jget_wf(v: JsonView, k: Seq<char>)
    requires
        wf(v),
    ensures
        (match jget(v, k) {
            Some(x) => wf(x),
            None => true,
        }),
{
    match v {
        JsonView::Obj(es) => {
            lemma_obj_get_wf(es, k);
        },
        _ => {},
    }
}

proof fn lemma_sprop_wf(desc: Seq<char>)
    ensures
        wf(crate::registry::sprop(desc)),
{
    broadcast use wfo_all;

    let es = crate::registry::sprop(desc)->Obj_0;
    assert forall|i: int| 0 <= i < es.len() implies wf((#[trigger] es[i]).1) by {
        if i == 0 {
            assert(es[i].1 == JsonView::Str("string"@));
        } else {
            assert(es[i].1 == JsonView::Str(desc));
        }
    }
    assert(wfo(es));
}

proof fn lemma_url_schema_wf(desc: Seq<char>, required: bool)
    ensures
        wf(crate::registry::url_schema(desc, required)),
{
    broadcast use wfo_all;
    broadcast use wfs_all;

    lemma_sprop_wf(desc);
    let props = seq![("url"@, crate::registry::sprop(desc))];
    assert forall|i: int| 0 <= i < props.len() implies wf((#[trigger] props[i]).1) by {
        assert(props[i].1 == crate::registry::sprop(desc));
    }
    assert(wfo(props));
    assert(wf(JsonView::Obj(props)));
    let req_arr = seq![JsonView::Str("url"@)];
    assert forall|i: int| 0 <= i < req_arr.len() implies wf(#[trigger] req_arr[i]) by {
        assert(req_arr[i] == JsonView::Str("url"@));
    }
    assert(wfs(req_arr));
    assert(wf(JsonView::Arr(req_arr)));
    let es = crate::registry::url_schema(desc, required)->Obj_0;
    assert forall|i: int| 0 <= i < es.len() implies wf((#[trigger] es[i]).1) by {
        if i == 0 {
            assert(es[i].1 == JsonView::Str("object"@));
        } else if i == 1 {
            assert(es[i].1 == JsonView::Obj(props));
        } else {
            assert(es[i].1 == JsonView::Arr(req_arr));
        }
    }
    assert(wfo(es));
}

proof fn lemma_download_schema_wf()
    ensures
        wf(crate::registry::download_schema()),
{
    broadcast use wfo_all;
    broadcast use wfs_all;

    lemma_sprop_wf("URL of the m3u8 stream"@);
    lemma_sprop_wf("Output file path"@);
    let props = seq![
        ("url"@, crate::registry::sprop("URL of the m3u8 stream"@)),
        ("output_path"@, crate::registry::sprop("Output file path"@)),
    ];
    assert forall|i: int| 0 <= i < props.len() implies wf((#[trigger] props[i]).1) by {
        if i == 0 {
            assert(props[i].1 == crate::registry::sprop("URL of the m3u8 stream"@));
        } else {
            assert(props[i].1 == crate::registry::sprop("Output file path"@));
        }
    }
    assert(wfo(props));
    assert(wf(JsonView::Obj(props)));
    let req_arr = seq![JsonView::Str("url"@), JsonView::Str("output_path"@)];
    assert forall|i: int| 0 <= i < req_arr.len() implies wf(#[trigger] req_arr[i]) by {
        if i == 0 {
            assert(req_arr[i] == JsonView::Str("url"@));
        } else {
            assert(req_arr[i] == JsonView::Str("output_path"@));
        }
    }
    assert(wfs(req_arr));
    assert(wf(JsonView::Arr(req_arr)));
    let es = crate::registry::download_schema()->Obj_0;
    assert forall|i: int| 0 <= i < es.len() implies wf((#[trigger] es[i]).1) by {
        if i == 0 {
            assert(es[i].1 == JsonView::Str("object"@));
        } else if i == 1 {
            assert(es[i].1 == JsonView::Obj(props));
        } else {
            assert(es[i].1 == JsonView::Arr(req_arr));
        }
    }
    assert(wfo(es));
}

proof fn lemma_tool_desc_wf(name: Seq<char>, desc: Seq<char>, schema: JsonView)
    requires
        wf(schema),
    ensures
        wf(crate::registry::tool_desc(name, desc, schema)),
{
    broadcast use wfo_all;

    let es = crate::registry::tool_desc(name, desc, schema)->Obj_0;
    assert forall|i: int| 0 <= i < es.len() implies wf((#[trigger] es[i]).1) by {
        if i == 0 {
            assert(es[i].1 == JsonView::Str(name));
        } else if i == 1 {
            assert(es[i].1 == JsonView::Str(desc));
        } else {
            assert(es[i].1 == schema);
        }
    }
    assert(wfo(es));
}

proof fn lemma_tools_result_wf()
    ensures
        wf(crate::registry::tools_result()),
{
    broadcast use wfo_all;
    broadcast use wfs_all;

    lemma_url_schema_wf("URL of the m3u8 playlist"@, true);
    lemma_url_schema_wf("URL of the m3u8 stream"@, true);
    lemma_url_schema_wf("Optional URL to navigate to"@, false);
    lemma_download_schema_wf();
    lemma_tool_desc_wf(
        "m3u8_parse"@,
        "Parse an m3u8 playlist URL and return its structure"@,
        crate::registry::url_schema("URL of the m3u8 playlist"@, true),
    );
    lemma_tool_desc_wf(
        "m3u8_download"@,
        "Download m3u8 stream to a file using FFmpeg"@,
        crate::registry::download_schema(),
    );
    lemma_tool_desc_wf(
        "m3u8_probe"@,
        "Probe m3u8 stream for information (duration, codecs, etc)"@,
        crate::registry::url_schema("URL of the m3u8 stream"@, true),
    );
    lemma_tool_desc_wf(
        "m3u8_extract_segments"@,
        "Extract all segment URLs from an m3u8 playlist"@,
        crate::registry::url_schema("URL of the m3u8 playlist"@, true),
    );
    lemma_tool_desc_wf(
        "open_capture_ui"@,
        "Open the m3u8 capture UI to intercept streams from websites"@,
        crate::registry::url_schema("Optional URL to navigate to"@, false),
    );
    let ts = crate::registry::tools_list();
    assert(wfs(ts));
    let es = crate::registry::tools_result()->Obj_0;
    assert forall|i: int| 0 <= i < es.len() implies wf((#[trigger] es[i]).1) by {
        assert(es[i].1 == JsonView::Arr(ts));
    }
    assert(wfo(es));
}

proof fn lemma_init_result_wf()
    ensures
        wf(crate::server::init_result()),
{
    broadcast use wfo_all;

    assert(wfo(Seq::<(Seq<char>, JsonView)>::empty()));
    assert(wf(JsonView::Obj(Seq::empty())));
    let caps = seq![("tools"@, JsonView::Obj(Seq::<(Seq<char>, JsonView)>::empty()))];
    assert forall|i: int| 0 <= i < caps.len() implies wf((#[trigger] caps[i]).1) by {
        assert(caps[i].1 == JsonView::Obj(Seq::<(Seq<char>, JsonView)>::empty()));
    }
    assert(wfo(caps));
    assert(wf(JsonView::Obj(caps)));
    let info = seq![("name"@, JsonView::Str("m3u8-mcp"@)), ("version"@, JsonView::Str("0.1.0"@))];
    assert forall|i: int| 0 <= i < info.len() implies wf((#[trigger] info[i]).1) by {
        if i == 0 {
            assert(info[i].1 == JsonView::Str("m3u8-mcp"@));
        } else {
            assert(info[i].1 == JsonView::Str("0.1.0"@));
        }
    }
    assert(wfo(info));
    assert(wf(JsonView::Obj(info)));
    let es = crate::server::init_result()->Obj_0;
    assert forall|i: int| 0 <= i < es.len() implies wf((#[trigger] es[i]).1) by {
        if i == 0 {
            assert(es[i].1 == JsonView::Str("2024-11-05"@));
        } else if i == 1 {
            assert(es[i].1 == JsonView::Obj(caps));
        } else {
            assert(es[i].1 == JsonView::Obj(info));
        }
    }
    assert(wfo(es));
}

broadcast proof fn lemma_tool_result_view_wf(text: Seq<char>, is_err: bool)
    ensures
        wf(#[trigger] crate::invoke::tool_result_view(text, is_err)),
{
    broadcast use wfo_all;
    broadcast use wfs_all;

    let item = seq![("type"@, JsonView::Str("text"@)), ("text"@, JsonView::Str(text))];
    assert forall|i: int| 0 <= i < item.len() implies wf((#[trigger] item[i]).1) by {
        if i == 0 {
            assert(item[i].1 == JsonView::Str("text"@));
        } else {
            assert(item[i].1 == JsonView::Str(text));
        }
    }
    assert(wfo(item));
    assert(wf(JsonView::Obj(item)));
    let content = seq![JsonView::Obj(item)];
    assert forall|i: int| 0 <= i < content.len() implies wf(#[trigger] content[i]) by {
        assert(content[i] == JsonView::Obj(item));
    }
    assert(wfs(content));
    assert(wf(JsonView::Arr(content)));
    let es = crate::invoke::tool_result_view(text, is_err)->Obj_0;
    assert forall|i: int| 0 <= i < es.len() implies wf((#[trigger] es[i]).1) by {
        if i == 0 {
            assert(es[i].1 == JsonView::Arr(content));
        } else {
            assert(es[i].1 == JsonView::Bool(true));
        }
    }
    assert(wfo(es));
}

/// Every response the engine asks the loop to write is one line of text:
/// its serialized envelope holds no line feed, whatever the input line
/// held.
pub proof fn lemma_response_is_one_line(l: Seq<char>)
    ensures
        (match line_act(l) {
            ActView::Respond(t) => one_line(t),
            _ => true,
        }),
{
    if !is_blank(l) {
        match parse_text(l) {
            None => {
                lemma_resp_one_line(
                    JsonView::Null,
                    None,
                    Some((PARSE_ERROR as int, parse_err_msg())),
                );
            },
            Some(v) => {
                lemma_parsed_wf(l, v);
                match decode(v) {
                    None => {
                        lemma_resp_one_line(
                            JsonView::Null,
                            None,
                            Some((PARSE_ERROR as int, envelope_err_msg())),
                        );
                    },
                    Some(req) => {
                        match req.id {
                            None => {},
                            Some(id) => {
                                lemma_jget_wf(v, "id"@);
                                assert(wf(id));
                                let m = req.method;
                                if m == "initialize"@ {
                                    lemma_init_result_wf();
                                    lemma_resp_one_line(
                                        id,
                                        Some(crate::server::init_result()),
                                        None,
                                    );
                                } else if m == "tools/list"@ {
                                    lemma_tools_result_wf();
                                    lemma_resp_one_line(
                                        id,
                                        Some(crate::registry::tools_result()),
                                        None,
                                    );
                                } else if m == "tools/call"@ {
                                    match req.params {
                                        None => {
                                            lemma_resp_one_line(
                                                id,
                                                None,
                                                Some((INVALID_PARAMS as int, "Missing params"@)),
                                            );
                                        },
                                        Some(p) => {
                                            let name = crate::invoke::get_str_or(p, "name"@, ""@);
                                            let args = match jget(p, "arguments"@) {
                                                Some(a) => a,
                                                None => JsonView::Obj(Seq::empty()),
                                            };
                                            match plan_tool(name, args) {
                                                Some(_) => {},
                                                None => {
                                                    lemma_tool_result_view_wf(
                                                        "Unknown tool: "@ + name,
                                                        true,
                                                    );
                                                    lemma_resp_one_line(
                                                        id,
                                                        Some(
                                                            crate::invoke::tool_result_view(
                                                                "Unknown tool: "@ + name,
                                                                true,
                                                            ),
                                                        ),
                                                        None,
                                                    );
                                                },
                                            }
                                        },
                                    }
                                } else if m == "ping"@ {
                                    assert(wfo(Seq::<(Seq<char>, JsonView)>::empty()));
                                    assert(wf(JsonView::Obj(Seq::empty())));
                                    lemma_resp_one_line(id, Some(JsonView::Obj(Seq::empty())), None);
                                } else {
                                    lemma_resp_one_line(
                                        id,
                                        None,
                                        Some(
                                            (
                                                METHOD_NOT_FOUND as int,
                                                "Method not found: "@ + m,
                                            ),
                                        ),
                                    );
                                }
                            },
                        }
                    },
                }
            },
        }
    }
}

/// The response a finished tool call draws is one line of text too, for
/// any id that came out of a parsed line.
pub proof fn lemma_tool_response_is_one_line(
    id: JsonView,
    a: crate::invoke::ActionView,
    o: crate::invoke::OutView,
)
    requires
        wf(id),
    ensures
        one_line(crate::envelope::ok_text(id, crate::invoke::tool_result_of(a, o))),
{
    broadcast use lemma_tool_result_view_wf;

    assert(wf(crate::invoke::tool_result_of(a, o)));
    lemma_resp_one_line(id, Some(crate::invoke::tool_result_of(a, o)), None);
}

/// The text that joins pieces with one line feed between them.
pub open spec fn join_nl(ls: Seq<Seq<char>>) -> Seq<char>
    decreases ls.len(),
{
    if ls.len() == 0 {
        Seq::empty()
    } else {
        ls.first() + (if ls.len() > 1 {
            seq!['\n']
        } else {
            Seq::empty()
        }) + join_nl(ls.drop_first())
    }
}

proof fn lemma_find_nl_at(s: Seq<char>, i: int, e: int)
    requires
        0 <= i <= e <= s.len(),
        forall|k: int| i <= k < e ==> s[k] != '\n',
        e == s.len() || s[e] == '\n',
    ensures
        find_nl(s, i) == e,
    decreases e - i,
{
    if i < e {
        lemma_find_nl_at(s, i + 1, e);
    }
}

proof fn lemma_split_join(s: Seq<char>, i: int, ls: Seq<Seq<char>>)
    requires
        0 <= i <= s.len(),
        s.subrange(i, s.len() as int) == join_nl(ls),
        forall|t: int| 0 <= t < ls.len() ==> (#[trigger] ls[t]).len() > 0,
        forall|t: int, k: int|
            0 <= t < ls.len() && 0 <= k < ls[t].len() ==> (#[trigger] ls[t][k]) != '\n',
        forall|t: int| 0 <= t < ls.len() ==> (#[trigger] ls[t]).last() != '\r',
    ensures
        split_lines_from(s, i) == ls,
    decreases ls.len(),
{
    if ls.len() == 0 {
        assert(s.subrange(i, s.len() as int).len() == 0);
        assert(i == s.len());
    } else {
        let p = ls.first();
        let plen = p.len() as int;
        let tail = join_nl(ls.drop_first());
        assert(join_nl(ls) == p + (if ls.len() > 1 {
            seq!['\n']
        } else {
            Seq::<char>::empty()
        }) + tail);
        assert forall|k: int| i <= k < i + plen implies s[k] == p[k - i] && s[k] != '\n' by {
            assert(s.subrange(i, s.len() as int)[k - i] == s[k]);
            assert(join_nl(ls)[k - i] == p[k - i]);
            assert(ls[0] == p);
        }
        if ls.len() == 1 {
            assert(join_nl(ls.drop_first()) =~= Seq::<char>::empty());
            assert(join_nl(ls) =~= p);
            assert(s.len() - i == plen);
            lemma_find_nl_at(s, i, s.len() as int);
            assert(s.subrange(i, s.len() as int) =~= p);
            assert(split_lines_from(s, i) == seq![p]);
            assert(seq![p] =~= ls);
        } else {
            assert(s[i + plen] == '\n') by {
                assert(s.subrange(i, s.len() as int)[plen] == s[i + plen]);
                assert(join_nl(ls)[plen] == '\n');
            }
            lemma_find_nl_at(s, i, i + plen);
            assert(find_nl(s, i) == i + plen);
            assert(i + plen < s.len());
            assert(s.subrange(i, i + plen) =~= p);
            assert(p.len() > 0 && p.last() != '\r');
            assert(strip_cr(p) == p);
            assert(s.subrange(i + plen + 1, s.len() as int) =~= tail) by {
                assert forall|k: int| 0 <= k < s.len() - i - plen - 1 implies s.subrange(
                    i + plen + 1,
                    s.len() as int,
                )[k] == tail[k] by {
                    assert(s.subrange(i, s.len() as int)[plen + 1 + k] == s[i + plen + 1 + k]);
                    assert(join_nl(ls)[plen + 1 + k] == tail[k]);
                }
                assert(s.subrange(i, s.len() as int).len() == join_nl(ls).len());
            }
            lemma_split_join(s, i + plen + 1, ls.drop_first());
            assert(split_lines_from(s, i) == seq![p] + split_lines_from(s, i + plen + 1));
            assert(seq![p] + ls.drop_first() =~= ls);
        }
    }
}

proof fn lemma_filter_keep_all(ls: Seq<Seq<char>>)
    requires
        forall|t: int| 0 <= t < ls.len() ==> keep_line(#[trigger] ls[t]),
    ensures
        filter_keep(ls) == ls,
    decreases ls.len(),
{
    if ls.len() > 0 {
        lemma_filter_keep_all(ls.drop_first());
        assert(seq![ls.first()] + ls.drop_first() =~= ls);
    }
}

proof fn lemma_find_nl_props(s: Seq<char>, i: int)
    requires
        0 <= i <= s.len(),
    ensures
        i <= find_nl(s, i) <= s.len(),
        forall|k: int| i <= k < find_nl(s, i) ==> s[k] != '\n',
    decreases s.len() - i,
{
    if i < s.len() && s[i] != '\n' {
        lemma_find_nl_props(s, i + 1);
    }
}

proof fn lemma_split_pieces(s: Seq<char>, i: int)
    requires
        0 <= i <= s.len(),
    ensures
        forall|t: int, k: int|
            0 <= t < split_lines_from(s, i).len() && 0 <= k < split_lines_from(s, i)[t].len()
                ==> (#[trigger] split_lines_from(s, i)[t][k]) != '\n',
    decreases s.len() - i,
{
    if i < s.len() {
        lemma_find_nl_props(s, i);
        let j = find_nl(s, i);
        if j >= s.len() {
            assert forall|k: int|
                0 <= k < s.subrange(i, s.len() as int).len() implies s.subrange(
                i,
                s.len() as int,
            )[k] != '\n' by {
                assert(s.subrange(i, s.len() as int)[k] == s[i + k]);
            }
        } else {
            lemma_split_pieces(s, j + 1);
            let piece = strip_cr(s.subrange(i, j));
            assert forall|k: int| 0 <= k < piece.len() implies piece[k] != '\n' by {
                assert(piece[k] == s[i + k]);
            }
            assert forall|t: int, k: int|
                0 <= t < split_lines_from(s, i).len() && 0 <= k < split_lines_from(s, i)[t].len()
                    implies (split_lines_from(s, i)[t][k]) != '\n' by {
                if t == 0 {
                    assert(split_lines_from(s, i)[0] == piece);
                } else {
                    assert(split_lines_from(s, i)[t] == split_lines_from(s, j + 1)[t - 1]);
                }
            }
        }
    }
}

proof fn lemma_filter_kept(ls: Seq<Seq<char>>)
    ensures
        forall|t: int|
            0 <= t < filter_keep(ls).len() ==> keep_line(#[trigger] filter_keep(ls)[t]) && exists|
                u: int,
            | 0 <= u < ls.len() && ls[u] == filter_keep(ls)[t],
    decreases ls.len(),
{
    if ls.len() > 0 {
        lemma_filter_kept(ls.drop_first());
        assert forall|t: int| 0 <= t < filter_keep(ls).len() implies keep_line(
            #[trigger] filter_keep(ls)[t],
        ) && exists|u: int| 0 <= u < ls.len() && ls[u] == filter_keep(ls)[t] by {
            let head: Seq<Seq<char>> = if keep_line(ls.first()) {
                seq![ls.first()]
            } else {
                Seq::empty()
            };
            assert(filter_keep(ls) == head + filter_keep(ls.drop_first()));
            if t < head.len() {
                assert(filter_keep(ls)[t] == ls.first());
                assert(ls[0] == ls.first());
            } else {
                let t2 = t - head.len();
                assert(filter_keep(ls)[t] == filter_keep(ls.drop_first())[t2]);
                let u2 = choose|u2: int|
                    0 <= u2 < ls.drop_first().len() && ls.drop_first()[u2] == filter_keep(
                        ls.drop_first(),
                    )[t2];
                assert(ls[u2 + 1] == ls.drop_first()[u2]);
            }
        }
    }
}

/// Segment extraction is idempotent on its filtering rule: extracting from
/// the joined lines of an extraction returns it unchanged. The one family
/// of inputs left out: a playlist in which a kept line still ends with a
/// carriage return, which a second pass would strip.
pub proof fn lemma_extract_idempotent(t: Seq<char>)
    requires
        forall|u: int|
            0 <= u < segs_of(t).len() ==> (#[trigger] segs_of(t)[u]).len() == 0 || segs_of(
                t,
            )[u].last() != '\r',
    ensures
        segs_of(join_nl(segs_of(t))) == segs_of(t),
{
    let ls = segs_of(t);
    lemma_split_pieces(t, 0);
    lemma_filter_kept(split_lines_from(t, 0));
    assert forall|u: int| 0 <= u < ls.len() implies (#[trigger] ls[u]).len() > 0 && keep_line(
        ls[u],
    ) && ls[u].last() != '\r' by {
        assert(keep_line(ls[u]));
        assert(!crate::text::is_blank(ls[u]));
        assert(ls[u].len() > 0);
    }
    assert forall|u: int, k: int|
        0 <= u < ls.len() && 0 <= k < ls[u].len() implies (#[trigger] ls[u][k]) != '\n' by {
        let orig = choose|o: int|
            0 <= o < split_lines_from(t, 0).len() && split_lines_from(t, 0)[o] == ls[u];
    }
    let s = join_nl(ls);
    assert(s.subrange(0, s.len() as int) =~= s);
    lemma_split_join(s, 0, ls);
    lemma_filter_keep_all(ls);
}

} // verus!
