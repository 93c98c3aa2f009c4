//! The tool invoker's two pure halves: planning which outside action a
//! `tools/call` asks for, and turning that action's outcome into the tool
//! call result. The outside work itself (an HTTP fetch, an external
//! process, a spawn) happens outside the library, between the two.

use vstd::prelude::*;
use crate::json::{Json, JsonView, jview, jviews, jviewo, jget, group_json_view};
use crate::text::{str_chars, chars_string, is_blank, is_blank_x};
use crate::ser::{ser_string, push_escaped_chars, push_chars};
use crate::envelope::{ok_text, ok_response};
use vstd::string::StringExecFns;

verus! {

/// The outside action a tool call asks for.
#[allow(inconsistent_fields)]
pub enum ToolAction {
    /// Fetch the playlist and report its text.
    FetchParse { url: String },
    /// Fetch the playlist and extract its segment entries.
    FetchSegments { url: String },
    /// Remux the stream to a file with the external media tool.
    RunDownload { url: String, output: String },
    /// Probe the stream with the external probing tool.
    RunProbe { url: String },
    /// Launch the companion capture interface.
    SpawnUi { url: Option<String> },
}

/// The mathematical shape of a [`ToolAction`].
#[allow(inconsistent_fields)]
pub enum ActionView {
    FetchParse { url: Seq<char> },
    FetchSegments { url: Seq<char> },
    RunDownload { url: Seq<char>, output: Seq<char> },
    RunProbe { url: Seq<char> },
    SpawnUi { url: Option<Seq<char>> },
}

impl View for ToolAction {
    type V = ActionView;

    open spec fn view(&self) -> ActionView {
        match *self {
            ToolAction::FetchParse { url } => ActionView::FetchParse { url: url@ },
            ToolAction::FetchSegments { url } => ActionView::FetchSegments { url: url@ },
            ToolAction::RunDownload { url, output } => ActionView::RunDownload {
                url: url@,
                output: output@,
            },
            ToolAction::RunProbe { url } => ActionView::RunProbe { url: url@ },
            ToolAction::SpawnUi { url } => ActionView::SpawnUi {
                url: match url {
                    Some(u) => Some(u@),
                    None => None,
                },
            },
        }
    }
}

/// What the outside action came back with.
pub enum ToolOutcome {
    /// The fetch succeeded and the body was read.
    FetchOk(String),
    /// The fetch itself failed; the text describes how.
    FetchErr(String),
    /// The fetch connected but the body could not be read.
    ReadErr(String),
    /// The external tool ran to an exit; its streams as text.
    RunDone { success: bool, stdout: String, stderr: String },
    /// The external tool could not be run at all.
    RunFailed(String),
    /// The spawn was attempted; its outcome is not observed.
    SpawnDone,
}

/// The mathematical shape of a [`ToolOutcome`].
pub enum OutView {
    FetchOk(Seq<char>),
    FetchErr(Seq<char>),
    ReadErr(Seq<char>),
    RunDone { success: bool, stdout: Seq<char>, stderr: Seq<char> },
    RunFailed(Seq<char>),
    SpawnDone,
}

impl View for ToolOutcome {
    type V = OutView;

    open spec fn view(&self) -> OutView {
        match *self {
            ToolOutcome::FetchOk(s) => OutView::FetchOk(s@),
            ToolOutcome::FetchErr(s) => OutView::FetchErr(s@),
            ToolOutcome::ReadErr(s) => OutView::ReadErr(s@),
            ToolOutcome::RunDone { success, stdout, stderr } => OutView::RunDone {
                success,
                stdout: stdout@,
                stderr: stderr@,
            },
            ToolOutcome::RunFailed(s) => OutView::RunFailed(s@),
            ToolOutcome::SpawnDone => OutView::SpawnDone,
        }
    }
}

/// Which outcomes an action can come back with: a fetch action a fetch
/// outcome, a run action a run outcome, a spawn action only its mark.
pub open spec fn outcome_fits(a: ActionView, o: OutView) -> bool {
    match a {
        ActionView::FetchParse { .. } => o is FetchOk || o is FetchErr || o is ReadErr,
        ActionView::FetchSegments { .. } => o is FetchOk || o is FetchErr || o is ReadErr,
        ActionView::RunDownload { .. } => o is RunDone || o is RunFailed,
        ActionView::RunProbe { .. } => o is RunDone || o is RunFailed,
        ActionView::SpawnUi { .. } => o is SpawnDone,
    }
}

/// A string field of an object, with a fallback when it is absent or not a
/// string.
pub open spec fn get_str_or(v: JsonView, k: Seq<char>, d: Seq<char>) -> Seq<char> {
    match jget(v, k) {
        Some(JsonView::Str(s)) => s,
        _ => d,
    }
}

/// The five names the invoker accepts.
pub open spec fn known_tool(n: Seq<char>) -> bool {
    ||| n == "m3u8_parse"@
    ||| n == "m3u8_download"@
    ||| n == "m3u8_probe"@
    ||| n == "m3u8_extract_segments"@
    ||| n == "open_capture_ui"@
}

/// Which action a tool name and argument object ask for; nothing for an
/// unknown name. Missing arguments take their documented defaults: an
/// empty URL, `output.mp4` for the download path.
pub open spec fn plan_tool(name: Seq<char>, args: JsonView) -> Option<ActionView> {
    if name == "m3u8_parse"@ {
        Some(ActionView::FetchParse { url: get_str_or(args, "url"@, ""@) })
    } else if name == "m3u8_download"@ {
        Some(
            ActionView::RunDownload {
                url: get_str_or(args, "url"@, ""@),
                output: get_str_or(args, "output_path"@, "output.mp4"@),
            },
        )
    } else if name == "m3u8_probe"@ {
        Some(ActionView::RunProbe { url: get_str_or(args, "url"@, ""@) })
    } else if name == "m3u8_extract_segments"@ {
        Some(ActionView::FetchSegments { url: get_str_or(args, "url"@, ""@) })
    } else if name == "open_capture_ui"@ {
        Some(
            ActionView::SpawnUi {
                url: match jget(args, "url"@) {
                    Some(JsonView::Str(u)) => Some(u),
                    _ => None,
                },
            },
        )
    } else {
        None
    }
}

/// The invoker plans an action exactly for the known tool names.
pub proof fn lemma_plan_exactly_known(name: Seq<char>, args: JsonView)
    ensures
        plan_tool(name, args) is Some <==> known_tool(name),
{
}

/// A string field of an object, with a fallback.
pub fn get_str_or_x(v: &Json, k: &str, d: &str) -> (r: String)
    ensures
        r@ == get_str_or(v@, k@, d@),
{
    match v.get(k) {
        Some(j) => match j.as_str() {
            Some(s) => s.clone(),
            None => String::from_str(d),
        },
        None => String::from_str(d),
    }
}

/// Plans the action for a tool name and argument object, exactly as
/// [`plan_tool`] says.
pub fn plan_tool_x(name: &String, args: &Json) -> (r: Option<ToolAction>)
    ensures
        (match r {
            Some(a) => plan_tool(name@, args@) == Some(a@),
            None => plan_tool(name@, args@) is None,
        }),
{
    if *name == String::from_str("m3u8_parse") {
        Some(ToolAction::FetchParse { url: get_str_or_x(args, "url", "") })
    } else if *name == String::from_str("m3u8_download") {
        Some(
            ToolAction::RunDownload {
                url: get_str_or_x(args, "url", ""),
                output: get_str_or_x(args, "output_path", "output.mp4"),
            },
        )
    } else if *name == String::from_str("m3u8_probe") {
        Some(ToolAction::RunProbe { url: get_str_or_x(args, "url", "") })
    } else if *name == String::from_str("m3u8_extract_segments") {
        Some(ToolAction::FetchSegments { url: get_str_or_x(args, "url", "") })
    } else if *name == String::from_str("open_capture_ui") {
        let u: Option<String> = match args.get("url") {
            Some(j) => match j.as_str() {
                Some(s) => Some(s.clone()),
                None => None,
            },
            None => None,
        };
        Some(ToolAction::SpawnUi { url: u })
    } else {
        None
    }
}

impl ToolAction {
    /// The external program and arguments a run action invokes: the media
    /// tool remuxing to the output file, or the probing tool asking for
    /// structured output. Fetch and spawn actions run no program.
    pub fn run_command(&self) -> (r: Option<(String, Vec<String>)>)
        ensures
            (match *self {
                ToolAction::RunDownload { .. } => r is Some,
                ToolAction::RunProbe { .. } => r is Some,
                _ => r is None,
            }),
            (match r {
                Some(c) => match self@ {
                    ActionView::RunDownload { url, output } => c.0@ == "ffmpeg"@ && c.1@.len() == 8
                        && c.1@[0]@ == "-y"@ && c.1@[1]@ == "-i"@ && c.1@[2]@ == url && c.1@[3]@
                        == "-c"@ && c.1@[4]@ == "copy"@ && c.1@[5]@ == "-bsf:a"@ && c.1@[6]@
                        == "aac_adtstoasc"@ && c.1@[7]@ == output,
                    ActionView::RunProbe { url } => c.0@ == "ffprobe"@ && c.1@.len() == 7 && c.1@[0]@
                        == "-v"@ && c.1@[1]@ == "quiet"@ && c.1@[2]@ == "-print_format"@ && c.1@[3]@
                        == "json"@ && c.1@[4]@ == "-show_format"@ && c.1@[5]@ == "-show_streams"@
                        && c.1@[6]@ == url,
                    _ => false,
                },
                None => true,
            }),
    {
        match self {
            ToolAction::RunDownload { url, output } => {
                let mut args: Vec<String> = Vec::new();
                args.push(String::from_str("-y"));
                args.push(String::from_str("-i"));
                args.push(url.clone());
                args.push(String::from_str("-c"));
                args.push(String::from_str("copy"));
                args.push(String::from_str("-bsf:a"));
                args.push(String::from_str("aac_adtstoasc"));
                args.push(output.clone());
                Some((String::from_str("ffmpeg"), args))
            },
            ToolAction::RunProbe { url } => {
                let mut args: Vec<String> = Vec::new();
                args.push(String::from_str("-v"));
                args.push(String::from_str("quiet"));
                args.push(String::from_str("-print_format"));
                args.push(String::from_str("json"));
                args.push(String::from_str("-show_format"));
                args.push(String::from_str("-show_streams"));
                args.push(url.clone());
                Some((String::from_str("ffprobe"), args))
            },
            _ => None,
        }
    }

    /// The arguments the companion interface is launched with: the URL
    /// under a `--url` flag when one was given.
    pub fn spawn_args(&self) -> (r: Option<Vec<String>>)
        ensures
            (match *self {
                ToolAction::SpawnUi { .. } => r is Some,
                _ => r is None,
            }),
            (match r {
                Some(a) => match self@ {
                    ActionView::SpawnUi { url } => match url {
                        Some(u) => a@.len() == 2 && a@[0]@ == "--url"@ && a@[1]@ == u,
                        None => a@.len() == 0,
                    },
                    _ => false,
                },
                None => true,
            }),
    {
        match self {
            ToolAction::SpawnUi { url } => {
                let mut args: Vec<String> = Vec::new();
                match url {
                    Some(u) => {
                        args.push(String::from_str("--url"));
                        args.push(u.clone());
                    },
                    None => {},
                }
                Some(args)
            },
            _ => None,
        }
    }
}

/// A tool call result value: one text content item, and an error mark when
/// the call failed at the tool level.
pub open spec fn tool_result_view(text: Seq<char>, is_err: bool) -> JsonView {
    JsonView::Obj(
        seq![
            (
                "content"@,
                JsonView::Arr(
                    seq![
                        JsonView::Obj(
                            seq![
                                ("type"@, JsonView::Str("text"@)),
                                ("text"@, JsonView::Str(text)),
                            ],
                        ),
                    ],
                ),
            ),
        ] + (if is_err {
            seq![("isError"@, JsonView::Bool(true))]
        } else {
            Seq::empty()
        }),
    )
}

/// Builds a tool call result value.
pub fn tool_result_x(text: String, is_err: bool) -> (r: Json)
    ensures
        jview(r) == tool_result_view(text@, is_err),
{
    broadcast use group_json_view;

    let ghost tv = text@;
    let mut item: Vec<(String, Json)> = Vec::new();
    item.push((String::from_str("type"), Json::Str(String::from_str("text"))));
    item.push((String::from_str("text"), Json::Str(text)));
    let ghost iv = item@;
    let item_obj = Json::Obj(item);
    proof {
        assert(jview(item_obj) == JsonView::Obj(jviewo(iv)));
        assert(jviewo(iv) =~= seq![("type"@, JsonView::Str("text"@)), ("text"@, JsonView::Str(tv))]);
    }
    let mut content: Vec<Json> = Vec::new();
    content.push(item_obj);
    let ghost cv = content@;
    let arr = Json::Arr(content);
    proof {
        assert(jview(arr) == JsonView::Arr(jviews(cv)));
        assert(jviews(cv) =~= seq![
            JsonView::Obj(seq![("type"@, JsonView::Str("text"@)), ("text"@, JsonView::Str(tv))]),
        ]);
    }
    let mut es: Vec<(String, Json)> = Vec::new();
    es.push((String::from_str("content"), arr));
    if is_err {
        es.push((String::from_str("isError"), Json::Bool(true)));
    }
    let ghost ev = es@;
    let r = Json::Obj(es);
    proof {
        assert(jview(r) == JsonView::Obj(jviewo(ev)));
        assert(jviewo(ev) =~= tool_result_view(tv, is_err)->Obj_0);
    }
    r
}

/// First position at or after `i` holding a line feed, or the end.
pub open spec fn find_nl(s: Seq<char>, i: int) -> int
    decreases s.len() - i,
        when 0 <= i <= s.len()
{
    if i < s.len() && s[i] != '\n' {
        find_nl(s, i + 1)
    } else {
        i
    }
}

pub proof fn find_nl_range(s: Seq<char>, i: int)
    requires
        0 <= i <= s.len(),
    ensures
        i <= find_nl(s, i) <= s.len(),
    decreases s.len() - i,
{
    if i < s.len() && s[i] != '\n' {
        find_nl_range(s, i + 1);
    }
}

/// Drops one carriage return at the end of a piece, as line splitting does
/// before a line feed.
pub open spec fn strip_cr(p: Seq<char>) -> Seq<char> {
    if p.len() > 0 && p.last() == '\r' {
        p.drop_last()
    } else {
        p
    }
}

/// The lines of a text, split at line feeds, each stripped of one carriage
/// return before its line feed; a final unterminated piece is kept as it
/// stands, and a trailing line feed adds no empty line.
pub open spec fn split_lines_from(s: Seq<char>, i: int) -> Seq<Seq<char>>
    decreases s.len() - i,
        when 0 <= i <= s.len()
{
    if i >= s.len() {
        Seq::empty()
    } else {
        proof {
            find_nl_range(s, i);
        }
        let j = find_nl(s, i);
        if j >= s.len() {
            seq![s.subrange(i, s.len() as int)]
        } else {
            seq![strip_cr(s.subrange(i, j))] + split_lines_from(s, j + 1)
        }
    }
}

/// A playlist line that names a segment: not a comment (its first character
/// is not `#`) and not blank.
pub open spec fn keep_line(p: Seq<char>) -> bool {
    !(p.len() > 0 && p[0] == '#') && !is_blank(p)
}

/// The kept lines, in order.
pub open spec fn filter_keep(ls: Seq<Seq<char>>) -> Seq<Seq<char>>
    decreases ls.len(),
{
    if ls.len() == 0 {
        Seq::empty()
    } else {
        (if keep_line(ls.first()) {
            seq![ls.first()]
        } else {
            Seq::empty()
        }) + filter_keep(ls.drop_first())
    }
}

/// The segment entries of a playlist text.
pub open spec fn segs_of(s: Seq<char>) -> Seq<Seq<char>> {
    filter_keep(split_lines_from(s, 0))
}

/// The pretty-printed items of a string array, each on its own indented
/// line.
pub open spec fn pretty_items(items: Seq<Seq<char>>) -> Seq<char>
    decreases items.len(),
{
    if items.len() == 0 {
        Seq::empty()
    } else {
        pretty_items(items.drop_last()) + (if items.len() > 1 {
            seq![',']
        } else {
            Seq::empty()
        }) + seq!['\n', ' ', ' '] + ser_string(items.last())
    }
}

/// The pretty-printed JSON array of strings: `[]` when empty, else one
/// string literal per line, indented by two spaces.
pub open spec fn pretty_arr(items: Seq<Seq<char>>) -> Seq<char> {
    if items.len() == 0 {
        seq!['[', ']']
    } else {
        seq!['['] + pretty_items(items) + seq!['\n', ']']
    }
}

#[verifier::loop_isolation(false)]
fn find_nl_x(s: &Vec<char>, i: usize) -> (r: usize)
    requires
        i <= s@.len(),
    ensures
        r as int == find_nl(s@, i as int),
        i <= r <= s@.len(),
{
    let mut cur: usize = i;
    while cur < s.len() && s[cur] != '\n'
        invariant
            i <= cur <= s@.len(),
            find_nl(s@, i as int) == find_nl(s@, cur as int),
        decreases s@.len() - cur,
    {
        cur = cur + 1;
    }
    cur
}

/// The extracted segment list of a playlist body, pretty-printed: the
/// non-comment, non-blank lines, in their original order.
#[verifier::loop_isolation(false)]
#[verifier::rlimit(50)]
pub fn extract_segments_text(body: &String) -> (r: String)
    ensures
        r@ == pretty_arr(segs_of(body@)),
{
    let cs = str_chars(body.as_str());
    let mut items: Vec<char> = Vec::new();
    let ghost mut kept: Seq<Seq<char>> = Seq::empty();
    let mut n: usize = 0;
    let mut cur: usize = 0;
    proof {
        assert(kept + filter_keep(split_lines_from(cs@, 0)) =~= filter_keep(
            split_lines_from(cs@, 0),
        ));
    }
    while cur < cs.len()
        invariant
            cur <= cs@.len(),
            n <= cur,
            n == kept.len(),
            items@ == pretty_items(kept),
            segs_of(cs@) == kept + filter_keep(split_lines_from(cs@, cur as int)),
        decreases cs@.len() - cur,
    {
        let ghost cur0 = cur as int;
        let ghost kept_in = kept;
        let j = find_nl_x(&cs, cur);
        let terminated = j < cs.len();
        let pe: usize = if terminated && j > cur && cs[j - 1] == '\r' {
            j - 1
        } else {
            j
        };
        let mut piece: Vec<char> = Vec::new();
        let mut t: usize = cur;
        proof {
            assert(piece@ =~= cs@.subrange(cur as int, cur as int));
        }
        while t < pe
            invariant
                cur <= t <= pe <= cs@.len(),
                piece@ == cs@.subrange(cur as int, t as int),
            decreases pe - t,
        {
            proof {
                assert(cs@.subrange(cur as int, t + 1) =~= cs@.subrange(cur as int, t as int).push(
                    cs@[t as int],
                ));
            }
            piece.push(cs[t]);
            t = t + 1;
        }
        let ghost pv = if terminated {
            strip_cr(cs@.subrange(cur0, j as int))
        } else {
            cs@.subrange(cur0, cs@.len() as int)
        };
        proof {
            if terminated {
                if j > cur0 && cs@[j - 1] == '\r' {
                    assert(cs@.subrange(cur0, j as int).last() == '\r');
                    assert(piece@ =~= cs@.subrange(cur0, j as int).drop_last());
                } else {
                    if j > cur0 {
                        assert(cs@.subrange(cur0, j as int).last() == cs@[j - 1]);
                    }
                    assert(piece@ =~= cs@.subrange(cur0, j as int));
                }
                assert(piece@ == pv);
            } else {
                assert(piece@ == pv);
            }
            assert(split_lines_from(cs@, cur0) == seq![pv] + split_lines_from(
                cs@,
                if terminated {
                    j + 1
                } else {
                    cs@.len() as int
                },
            )) by {
                if terminated {
                } else {
                    assert(split_lines_from(cs@, cs@.len() as int) =~= Seq::<Seq<char>>::empty());
                    assert(seq![pv] + Seq::<Seq<char>>::empty() =~= seq![pv]);
                }
            }
        }
        let keep = !(piece.len() > 0 && piece[0] == '#') && !is_blank_x(&piece);
        if keep {
            let ghost kept0 = kept;
            if n > 0 {
                items.push(',');
            }
            items.push('\n');
            items.push(' ');
            items.push(' ');
            items.push('"');
            push_escaped_chars(&mut items, &piece);
            items.push('"');
            n = n + 1;
            proof {
                kept = kept0.push(pv);
                assert(kept.drop_last() =~= kept0);
                assert(kept.last() == pv);
                assert(pretty_items(kept) == pretty_items(kept0) + (if kept.len() > 1 {
                    seq![',']
                } else {
                    Seq::<char>::empty()
                }) + seq!['\n', ' ', ' '] + ser_string(pv));
                assert(items@ =~= pretty_items(kept));
            }
        }
        proof {
            let rest = split_lines_from(
                cs@,
                if terminated {
                    j + 1
                } else {
                    cs@.len() as int
                },
            );
            let whole = seq![pv] + rest;
            assert(whole.first() == pv);
            assert(whole.drop_first() =~= rest);
            assert(filter_keep(whole) == (if keep_line(pv) {
                seq![pv]
            } else {
                Seq::<Seq<char>>::empty()
            }) + filter_keep(rest));
            if keep {
                assert(kept == kept_in.push(pv));
                assert(kept_in + (seq![pv] + filter_keep(rest)) =~= kept + filter_keep(rest));
            } else {
                assert(kept_in + (Seq::<Seq<char>>::empty() + filter_keep(rest)) =~= kept
                    + filter_keep(rest));
            }
            assert(segs_of(cs@) == kept + filter_keep(rest));
        }
        cur = if terminated {
            j + 1
        } else {
            j
        };
    }
    proof {
        assert(split_lines_from(cs@, cs@.len() as int) =~= Seq::<Seq<char>>::empty());
        assert(filter_keep(Seq::<Seq<char>>::empty()) =~= Seq::<Seq<char>>::empty());
        assert(segs_of(cs@) =~= kept);
    }
    let mut out: Vec<char> = Vec::new();
    if n == 0 {
        out.push('[');
        out.push(']');
        proof {
            assert(out@ =~= pretty_arr(segs_of(body@)));
        }
    } else {
        out.push('[');
        push_chars(&mut out, &items);
        out.push('\n');
        out.push(']');
        proof {
            assert(out@ =~= pretty_arr(segs_of(body@)));
        }
    }
    chars_string(&out)
}

/// The result value for an action's outcome: success text for what went
/// through, descriptive text with the error mark for what failed, with the
/// one exception of the probe tool, whose exit status is not examined, and
/// the launch tool, whose outcome is not observed.
pub open spec fn tool_result_of(a: ActionView, o: OutView) -> JsonView {
    match a {
        ActionView::FetchParse { url } => match o {
            OutView::FetchOk(b) => tool_result_view(
                "Parsed m3u8 from "@ + url + ":\n"@ + b,
                false,
            ),
            OutView::FetchErr(e) => tool_result_view("Failed to fetch m3u8: "@ + e, true),
            OutView::ReadErr(e) => tool_result_view("Failed to read response: "@ + e, true),
            _ => tool_result_view(Seq::empty(), true),
        },
        ActionView::FetchSegments { url } => match o {
            OutView::FetchOk(b) => tool_result_view(pretty_arr(segs_of(b)), false),
            OutView::FetchErr(e) => tool_result_view("Failed to fetch: "@ + e, true),
            OutView::ReadErr(e) => tool_result_view("Failed to read: "@ + e, true),
            _ => tool_result_view(Seq::empty(), true),
        },
        ActionView::RunDownload { url, output } => match o {
            OutView::RunDone { success, stdout, stderr } => if success {
                tool_result_view("Downloaded to: "@ + output, false)
            } else {
                tool_result_view("FFmpeg error: "@ + stderr, true)
            },
            OutView::RunFailed(e) => tool_result_view("Failed to run ffmpeg: "@ + e, true),
            _ => tool_result_view(Seq::empty(), true),
        },
        ActionView::RunProbe { url } => match o {
            OutView::RunDone { success, stdout, stderr } => tool_result_view(stdout, false),
            OutView::RunFailed(e) => tool_result_view("Failed to probe: "@ + e, true),
            _ => tool_result_view(Seq::empty(), true),
        },
        ActionView::SpawnUi { url } => tool_result_view("Opened m3u8 capture UI"@, false),
    }
}

/// The full response line for a finished tool call: a success envelope
/// whose result is [`tool_result_of`] for the action and its outcome.
pub fn tool_response(id: Json, call: &ToolAction, outcome: ToolOutcome) -> (r: String)
    requires
        outcome_fits(call@, outcome@),
    ensures
        r@ == ok_text(jview(id), tool_result_of(call@, outcome@)),
{
    let result: Json = match call {
        ToolAction::FetchParse { url } => match outcome {
            ToolOutcome::FetchOk(b) => tool_result_x(
                String::from_str("Parsed m3u8 from ").concat(url.as_str()).concat(":\n").concat(
                    b.as_str(),
                ),
                false,
            ),
            ToolOutcome::FetchErr(e) => tool_result_x(
                String::from_str("Failed to fetch m3u8: ").concat(e.as_str()),
                true,
            ),
            ToolOutcome::ReadErr(e) => tool_result_x(
                String::from_str("Failed to read response: ").concat(e.as_str()),
                true,
            ),
            _ => {
                proof {
                    assert(false);
                }
                tool_result_x(String::new(), true)
            },
        },
        ToolAction::FetchSegments { url } => match outcome {
            ToolOutcome::FetchOk(b) => tool_result_x(extract_segments_text(&b), false),
            ToolOutcome::FetchErr(e) => tool_result_x(
                String::from_str("Failed to fetch: ").concat(e.as_str()),
                true,
            ),
            ToolOutcome::ReadErr(e) => tool_result_x(
                String::from_str("Failed to read: ").concat(e.as_str()),
                true,
            ),
            _ => {
                proof {
                    assert(false);
                }
                tool_result_x(String::new(), true)
            },
        },
        ToolAction::RunDownload { url, output } => match outcome {
            ToolOutcome::RunDone { success, stdout, stderr } => if success {
                tool_result_x(String::from_str("Downloaded to: ").concat(output.as_str()), false)
            } else {
                tool_result_x(String::from_str("FFmpeg error: ").concat(stderr.as_str()), true)
            },
            ToolOutcome::RunFailed(e) => tool_result_x(
                String::from_str("Failed to run ffmpeg: ").concat(e.as_str()),
                true,
            ),
            _ => {
                proof {
                    assert(false);
                }
                tool_result_x(String::new(), true)
            },
        },
        ToolAction::RunProbe { url } => match outcome {
            ToolOutcome::RunDone { success, stdout, stderr } => tool_result_x(stdout, false),
            ToolOutcome::RunFailed(e) => tool_result_x(
                String::from_str("Failed to probe: ").concat(e.as_str()),
                true,
            ),
            _ => {
                proof {
                    assert(false);
                }
                tool_result_x(String::new(), true)
            },
        },
        ToolAction::SpawnUi { url } => match outcome {
            ToolOutcome::SpawnDone => tool_result_x(
                String::from_str("Opened m3u8 capture UI"),
                false,
            ),
            _ => {
                proof {
                    assert(false);
                }
                tool_result_x(String::new(), true)
            },
        },
    };
    ok_response(id, result)
}

} // verus!
