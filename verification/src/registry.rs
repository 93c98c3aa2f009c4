//! The tool registry: the fixed catalog of tools that `tools/list` returns,
//! established once and pinned, descriptor by descriptor, by spec functions.

use vstd::prelude::*;
use crate::json::{Json, JsonView, jview, jviews, jviewo, jget, obj_get, group_json_view};

verus! {

/// A schema property: a string-typed field with a description.
pub open spec fn sprop(desc: Seq<char>) -> JsonView {
    JsonView::Obj(
        seq![("type"@, JsonView::Str("string"@)), ("description"@, JsonView::Str(desc))],
    )
}

/// The input schema of a tool whose only argument is `url`.
pub open spec fn url_schema(desc: Seq<char>, required: bool) -> JsonView {
    JsonView::Obj(
        seq![
            ("type"@, JsonView::Str("object"@)),
            ("properties"@, JsonView::Obj(seq![("url"@, sprop(desc))])),
        ] + (if required {
            seq![("required"@, JsonView::Arr(seq![JsonView::Str("url"@)]))]
        } else {
            Seq::empty()
        }),
    )
}

/// The input schema of the download tool: `url` and `output_path`.
pub open spec fn download_schema() -> JsonView {
    JsonView::Obj(
        seq![
            ("type"@, JsonView::Str("object"@)),
            (
                "properties"@,
                JsonView::Obj(
                    seq![
                        ("url"@, sprop("URL of the m3u8 stream"@)),
                        ("output_path"@, sprop("Output file path"@)),
                    ],
                ),
            ),
            (
                "required"@,
                JsonView::Arr(seq![JsonView::Str("url"@), JsonView::Str("output_path"@)]),
            ),
        ],
    )
}

/// One tool descriptor: name, description, input schema.
pub open spec fn tool_desc(name: Seq<char>, desc: Seq<char>, schema: JsonView) -> JsonView {
    JsonView::Obj(
        seq![
            ("name"@, JsonView::Str(name)),
            ("description"@, JsonView::Str(desc)),
            ("inputSchema"@, schema),
        ],
    )
}

/// The five descriptors, in their listed order.
pub open spec fn tools_list() -> Seq<JsonView> {
    seq![
        tool_desc(
            "m3u8_parse"@,
            "Parse an m3u8 playlist URL and return its structure"@,
            url_schema("URL of the m3u8 playlist"@, true),
        ),
        tool_desc(
            "m3u8_download"@,
            "Download m3u8 stream to a file using FFmpeg"@,
            download_schema(),
        ),
        tool_desc(
            "m3u8_probe"@,
            "Probe m3u8 stream for information (duration, codecs, etc)"@,
            url_schema("URL of the m3u8 stream"@, true),
        ),
        tool_desc(
            "m3u8_extract_segments"@,
            "Extract all segment URLs from an m3u8 playlist"@,
            url_schema("URL of the m3u8 playlist"@, true),
        ),
        tool_desc(
            "open_capture_ui"@,
            "Open the m3u8 capture UI to intercept streams from websites"@,
            url_schema("Optional URL to navigate to"@, false),
        ),
    ]
}

/// What `tools/list` returns: the catalog under a `tools` key.
pub open spec fn tools_result() -> JsonView {
    JsonView::Obj(seq![("tools"@, JsonView::Arr(tools_list()))])
}

/// The five tool names, in registry order.
pub open spec fn registry_names() -> Seq<Seq<char>> {
    seq![
        "m3u8_parse"@,
        "m3u8_download"@,
        "m3u8_probe"@,
        "m3u8_extract_segments"@,
        "open_capture_ui"@,
    ]
}

/// Every descriptor carries its registry name under the `name` key.
pub proof fn lemma_tool_desc_name(name: Seq<char>, desc: Seq<char>, schema: JsonView)
    ensures
        jget(tool_desc(name, desc, schema), "name"@) == Some(JsonView::Str(name)),
{
    reveal_strlit("name");
    reveal_strlit("description");
    reveal_strlit("inputSchema");
    let es = seq![
        ("name"@, JsonView::Str(name)),
        ("description"@, JsonView::Str(desc)),
        ("inputSchema"@, schema),
    ];
    assert("name"@.len() == 4);
    assert("inputSchema"@.len() == 11);
    assert("description"@.len() == 11);
    assert("description"@[0] == 'd' && "inputSchema"@[0] == 'i');
    assert(es.last().0 != "name"@);
    assert(obj_get(es, "name"@) == obj_get(es.drop_last(), "name"@));
    assert(es.drop_last().last().0 != "name"@);
    assert(obj_get(es.drop_last(), "name"@) == obj_get(es.drop_last().drop_last(), "name"@));
    assert(es.drop_last().drop_last().last() == ("name"@, JsonView::Str(name)));
}

/// The catalog's descriptors carry exactly the registry names, in order.
pub proof fn lemma_tools_have_names()
    ensures
        tools_list().len() == registry_names().len(),
        forall|i: int|
            0 <= i < tools_list().len() ==> jget(#[trigger] tools_list()[i], "name"@) == Some(
                JsonView::Str(registry_names()[i]),
            ),
{
    lemma_tool_desc_name(
        "m3u8_parse"@,
        "Parse an m3u8 playlist URL and return its structure"@,
        url_schema("URL of the m3u8 playlist"@, true),
    );
    lemma_tool_desc_name(
        "m3u8_download"@,
        "Download m3u8 stream to a file using FFmpeg"@,
        download_schema(),
    );
    lemma_tool_desc_name(
        "m3u8_probe"@,
        "Probe m3u8 stream for information (duration, codecs, etc)"@,
        url_schema("URL of the m3u8 stream"@, true),
    );
    lemma_tool_desc_name(
        "m3u8_extract_segments"@,
        "Extract all segment URLs from an m3u8 playlist"@,
        url_schema("URL of the m3u8 playlist"@, true),
    );
    lemma_tool_desc_name(
        "open_capture_ui"@,
        "Open the m3u8 capture UI to intercept streams from websites"@,
        url_schema("Optional URL to navigate to"@, false),
    );
}

fn jstr(s: &str) -> (r: Json)
    ensures
        jview(r) == JsonView::Str(s@),
{
    Json::Str(String::from_str(s))
}

fn sprop_x(desc: &str) -> (r: Json)
    ensures
        jview(r) == sprop(desc@),
{
    broadcast use group_json_view;

    let mut es: Vec<(String, Json)> = Vec::new();
    es.push((String::from_str("type"), jstr("string")));
    es.push((String::from_str("description"), jstr(desc)));
    let ghost ev = es@;
    let r = Json::Obj(es);
    proof {
        assert(jview(r) == JsonView::Obj(jviewo(ev)));
        assert(jviewo(ev) =~= sprop(desc@)->Obj_0);
    }
    r
}

fn url_schema_x(desc: &str, required: bool) -> (r: Json)
    ensures
        jview(r) == url_schema(desc@, required),
{
    broadcast use group_json_view;

    let mut props: Vec<(String, Json)> = Vec::new();
    props.push((String::from_str("url"), sprop_x(desc)));
    let ghost pv = props@;
    let props_obj = Json::Obj(props);
    proof {
        assert(jview(props_obj) == JsonView::Obj(jviewo(pv)));
        assert(jviewo(pv) =~= seq![("url"@, sprop(desc@))]);
    }
    let mut es: Vec<(String, Json)> = Vec::new();
    es.push((String::from_str("type"), jstr("object")));
    es.push((String::from_str("properties"), props_obj));
    if required {
        let mut req: Vec<Json> = Vec::new();
        req.push(jstr("url"));
        let ghost rv = req@;
        let req_arr = Json::Arr(req);
        proof {
            assert(jview(req_arr) == JsonView::Arr(jviews(rv)));
            assert(jviews(rv) =~= seq![JsonView::Str("url"@)]);
        }
        es.push((String::from_str("required"), req_arr));
    }
    let ghost ev = es@;
    let r = Json::Obj(es);
    proof {
        assert(jview(r) == JsonView::Obj(jviewo(ev)));
        assert(jviewo(ev) =~= url_schema(desc@, required)->Obj_0);
    }
    r
}

fn download_schema_x() -> (r: Json)
    ensures
        jview(r) == download_schema(),
{
    broadcast use group_json_view;

    let mut props: Vec<(String, Json)> = Vec::new();
    props.push((String::from_str("url"), sprop_x("URL of the m3u8 stream")));
    props.push((String::from_str("output_path"), sprop_x("Output file path")));
    let ghost pv = props@;
    let props_obj = Json::Obj(props);
    proof {
        assert(jview(props_obj) == JsonView::Obj(jviewo(pv)));
        assert(jviewo(pv) =~= seq![
            ("url"@, sprop("URL of the m3u8 stream"@)),
            ("output_path"@, sprop("Output file path"@)),
        ]);
    }
    let mut req: Vec<Json> = Vec::new();
    req.push(jstr("url"));
    req.push(jstr("output_path"));
    let ghost rv = req@;
    let req_arr = Json::Arr(req);
    proof {
        assert(jview(req_arr) == JsonView::Arr(jviews(rv)));
        assert(jviews(rv) =~= seq![JsonView::Str("url"@), JsonView::Str("output_path"@)]);
    }
    let mut es: Vec<(String, Json)> = Vec::new();
    es.push((String::from_str("type"), jstr("object")));
    es.push((String::from_str("properties"), props_obj));
    es.push((String::from_str("required"), req_arr));
    let ghost ev = es@;
    let r = Json::Obj(es);
    proof {
        assert(jview(r) == JsonView::Obj(jviewo(ev)));
        assert(jviewo(ev) =~= download_schema()->Obj_0);
    }
    r
}

fn tool_desc_x(name: &str, desc: &str, schema: Json) -> (r: Json)
    ensures
        jview(r) == tool_desc(name@, desc@, jview(schema)),
{
    broadcast use group_json_view;

    let ghost sv = jview(schema);
    let mut es: Vec<(String, Json)> = Vec::new();
    es.push((String::from_str("name"), jstr(name)));
    es.push((String::from_str("description"), jstr(desc)));
    es.push((String::from_str("inputSchema"), schema));
    let ghost ev = es@;
    let r = Json::Obj(es);
    proof {
        assert(jview(r) == JsonView::Obj(jviewo(ev)));
        assert(jviewo(ev) =~= tool_desc(name@, desc@, sv)->Obj_0);
    }
    r
}

/// Builds the `tools/list` result value, exactly the catalog.
pub fn tools_result_x() -> (r: Json)
    ensures
        jview(r) == tools_result(),
{
    broadcast use group_json_view;

    let mut list: Vec<Json> = Vec::new();
    list.push(
        tool_desc_x(
            "m3u8_parse",
            "Parse an m3u8 playlist URL and return its structure",
            url_schema_x("URL of the m3u8 playlist", true),
        ),
    );
    list.push(
        tool_desc_x(
            "m3u8_download",
            "Download m3u8 stream to a file using FFmpeg",
            download_schema_x(),
        ),
    );
    list.push(
        tool_desc_x(
            "m3u8_probe",
            "Probe m3u8 stream for information (duration, codecs, etc)",
            url_schema_x("URL of the m3u8 stream", true),
        ),
    );
    list.push(
        tool_desc_x(
            "m3u8_extract_segments",
            "Extract all segment URLs from an m3u8 playlist",
            url_schema_x("URL of the m3u8 playlist", true),
        ),
    );
    list.push(
        tool_desc_x(
            "open_capture_ui",
            "Open the m3u8 capture UI to intercept streams from websites",
            url_schema_x("Optional URL to navigate to", false),
        ),
    );
    let ghost lv = list@;
    let arr = Json::Arr(list);
    proof {
        assert(jview(arr) == JsonView::Arr(jviews(lv)));
        assert(jviews(lv) =~= tools_list());
    }
    let mut es: Vec<(String, Json)> = Vec::new();
    es.push((String::from_str("tools"), arr));
    let ghost ev = es@;
    let r = Json::Obj(es);
    proof {
        assert(jview(r) == JsonView::Obj(jviewo(ev)));
        assert(jviewo(ev) =~= tools_result()->Obj_0);
    }
    r
}

} // verus!
