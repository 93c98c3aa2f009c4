use m3u8_mcp::invoke::{ToolAction, ToolOutcome};
use m3u8_mcp::server::{handle_line, LineAction};
use m3u8_mcp::Json;

fn expect_respond(line: &str) -> String {
    match handle_line(line) {
        LineAction::Respond(s) => s,
        LineAction::Silent => panic!("expected a response, line was silent"),
        LineAction::Invoke { .. } => panic!("expected a response, got a tool invocation"),
    }
}

fn expect_invoke(line: &str) -> (Json, ToolAction) {
    match handle_line(line) {
        LineAction::Invoke { id, call } => (id, call),
        _ => panic!("expected a tool invocation"),
    }
}

#[test]
fn ping_scenario() {
    assert_eq!(
        expect_respond("{\"jsonrpc\":\"2.0\",\"id\":1,\"method\":\"ping\"}"),
        "{\"jsonrpc\":\"2.0\",\"id\":1,\"result\":{}}"
    );
}

#[test]
fn unknown_method_scenario() {
    assert_eq!(
        expect_respond("{\"id\":\"a\",\"method\":\"unknown_method\"}"),
        "{\"jsonrpc\":\"2.0\",\"id\":\"a\",\"error\":{\"code\":-32601,\"message\":\"Method not found: unknown_method\"}}"
    );
}

#[test]
fn notification_tool_call_is_silent() {
    let line = "{\"method\":\"tools/call\",\"params\":{\"name\":\"m3u8_download\",\"arguments\":{\"url\":\"bad://x\"}}}";
    assert!(matches!(handle_line(line), LineAction::Silent));
}

#[test]
fn notification_ping_is_silent() {
    assert!(matches!(handle_line("{\"method\":\"ping\"}"), LineAction::Silent));
}

#[test]
fn null_id_is_notification() {
    assert!(matches!(handle_line("{\"id\":null,\"method\":\"ping\"}"), LineAction::Silent));
}

#[test]
fn blank_lines_are_silent() {
    assert!(matches!(handle_line(""), LineAction::Silent));
    assert!(matches!(handle_line("   "), LineAction::Silent));
    assert!(matches!(handle_line("\t \u{00a0}"), LineAction::Silent));
}

#[test]
fn blank_line_does_not_affect_next_line() {
    assert!(matches!(handle_line("   "), LineAction::Silent));
    assert_eq!(
        expect_respond("{\"jsonrpc\":\"2.0\",\"id\":1,\"method\":\"ping\"}"),
        "{\"jsonrpc\":\"2.0\",\"id\":1,\"result\":{}}"
    );
}

#[test]
fn malformed_json_gets_parse_error_with_null_id() {
    assert_eq!(
        expect_respond("{not json"),
        "{\"jsonrpc\":\"2.0\",\"id\":null,\"error\":{\"code\":-32700,\"message\":\"Parse error: invalid JSON\"}}"
    );
}

#[test]
fn bad_line_does_not_stop_the_next_one() {
    let bad = expect_respond("][");
    assert!(bad.contains("-32700"));
    assert_eq!(
        expect_respond("{\"jsonrpc\":\"2.0\",\"id\":1,\"method\":\"ping\"}"),
        "{\"jsonrpc\":\"2.0\",\"id\":1,\"result\":{}}"
    );
}

#[test]
fn missing_method_is_a_parse_error() {
    assert_eq!(
        expect_respond("{\"id\":1}"),
        "{\"jsonrpc\":\"2.0\",\"id\":null,\"error\":{\"code\":-32700,\"message\":\"Parse error: invalid request envelope\"}}"
    );
}

#[test]
fn non_string_method_is_a_parse_error() {
    let r = expect_respond("{\"id\":1,\"method\":5}");
    assert!(r.contains("-32700"));
    assert!(r.contains("\"id\":null"));
}

#[test]
fn tools_call_without_params_is_invalid_params() {
    assert_eq!(
        expect_respond("{\"id\":2,\"method\":\"tools/call\"}"),
        "{\"jsonrpc\":\"2.0\",\"id\":2,\"error\":{\"code\":-32602,\"message\":\"Missing params\"}}"
    );
}

#[test]
fn string_id_stays_string_and_number_stays_number() {
    let s = expect_respond("{\"id\":\"1\",\"method\":\"ping\"}");
    assert_eq!(s, "{\"jsonrpc\":\"2.0\",\"id\":\"1\",\"result\":{}}");
    let n = expect_respond("{\"id\":1,\"method\":\"ping\"}");
    assert_eq!(n, "{\"jsonrpc\":\"2.0\",\"id\":1,\"result\":{}}");
    let f = expect_respond("{\"id\":-0.5e+2,\"method\":\"ping\"}");
    assert_eq!(f, "{\"jsonrpc\":\"2.0\",\"id\":-0.5e+2,\"result\":{}}");
}

#[test]
fn structured_id_is_echoed() {
    let s = expect_respond("{\"id\":[1,{\"k\":true}],\"method\":\"ping\"}");
    assert_eq!(s, "{\"jsonrpc\":\"2.0\",\"id\":[1,{\"k\":true}],\"result\":{}}");
}

#[test]
fn escaped_id_is_decoded_then_reescaped() {
    let s = expect_respond("{\"id\":\"\\u0041\\t\",\"method\":\"ping\"}");
    assert_eq!(s, "{\"jsonrpc\":\"2.0\",\"id\":\"A\\t\",\"result\":{}}");
}

#[test]
fn surrogate_pair_id_round_trips() {
    let s = expect_respond("{\"id\":\"\\ud83d\\ude00\",\"method\":\"ping\"}");
    assert_eq!(s, "{\"jsonrpc\":\"2.0\",\"id\":\"\u{1F600}\",\"result\":{}}");
}

#[test]
fn control_character_in_method_is_escaped_in_message() {
    let s = expect_respond("{\"id\":1,\"method\":\"a\\tb\"}");
    assert_eq!(
        s,
        "{\"jsonrpc\":\"2.0\",\"id\":1,\"error\":{\"code\":-32601,\"message\":\"Method not found: a\\tb\"}}"
    );
}

#[test]
fn initialize_scenario() {
    assert_eq!(
        expect_respond("{\"id\":0,\"method\":\"initialize\"}"),
        "{\"jsonrpc\":\"2.0\",\"id\":0,\"result\":{\"protocolVersion\":\"2024-11-05\",\"capabilities\":{\"tools\":{}},\"serverInfo\":{\"name\":\"m3u8-mcp\",\"version\":\"0.1.0\"}}}"
    );
}

#[test]
fn tools_list_names_all_five_tools_in_order() {
    let s = expect_respond("{\"id\":5,\"method\":\"tools/list\"}");
    assert!(s.starts_with("{\"jsonrpc\":\"2.0\",\"id\":5,\"result\":{\"tools\":["));
    let names = [
        "\"name\":\"m3u8_parse\"",
        "\"name\":\"m3u8_download\"",
        "\"name\":\"m3u8_probe\"",
        "\"name\":\"m3u8_extract_segments\"",
        "\"name\":\"open_capture_ui\"",
    ];
    let mut last = 0;
    for n in names {
        let at = s.find(n).expect("missing tool name");
        assert!(at >= last, "registry order changed");
        last = at;
    }
    assert!(s.contains("\"inputSchema\":{\"type\":\"object\""));
}

#[test]
fn every_listed_tool_name_is_invokable_and_unknown_names_are_not() {
    for name in [
        "m3u8_parse",
        "m3u8_download",
        "m3u8_probe",
        "m3u8_extract_segments",
        "open_capture_ui",
    ] {
        let line = format!(
            "{{\"id\":1,\"method\":\"tools/call\",\"params\":{{\"name\":\"{}\"}}}}",
            name
        );
        assert!(
            matches!(handle_line(&line), LineAction::Invoke { .. }),
            "registry name without an invoker branch"
        );
    }
    let line = "{\"id\":1,\"method\":\"tools/call\",\"params\":{\"name\":\"m3u8_other\"}}";
    assert!(matches!(handle_line(line), LineAction::Respond(_)));
}

#[test]
fn unknown_tool_is_a_tool_level_error() {
    let s = expect_respond("{\"id\":3,\"method\":\"tools/call\",\"params\":{\"name\":\"nope\"}}");
    assert_eq!(
        s,
        "{\"jsonrpc\":\"2.0\",\"id\":3,\"result\":{\"content\":[{\"type\":\"text\",\"text\":\"Unknown tool: nope\"}],\"isError\":true}}"
    );
}

#[test]
fn missing_tool_name_means_unknown_empty_tool() {
    let s = expect_respond("{\"id\":3,\"method\":\"tools/call\",\"params\":{}}");
    assert!(s.contains("\"text\":\"Unknown tool: \""));
    assert!(s.contains("\"isError\":true"));
}

#[test]
fn parse_tool_plans_a_fetch_and_reports_the_body() {
    let (id, call) = expect_invoke(
        "{\"id\":4,\"method\":\"tools/call\",\"params\":{\"name\":\"m3u8_parse\",\"arguments\":{\"url\":\"http://u\"}}}",
    );
    match &call {
        ToolAction::FetchParse { url } => assert_eq!(url, "http://u"),
        _ => panic!("wrong action"),
    }
    let s = m3u8_mcp::invoke::tool_response(
        id,
        &call,
        ToolOutcome::FetchOk("#EXTM3U\nseg.ts".to_string()),
    );
    assert_eq!(
        s,
        "{\"jsonrpc\":\"2.0\",\"id\":4,\"result\":{\"content\":[{\"type\":\"text\",\"text\":\"Parsed m3u8 from http://u:\\n#EXTM3U\\nseg.ts\"}]}}"
    );
}

#[test]
fn parse_tool_fetch_failure_is_flagged() {
    let (id, call) = expect_invoke(
        "{\"id\":4,\"method\":\"tools/call\",\"params\":{\"name\":\"m3u8_parse\",\"arguments\":{\"url\":\"bad://x\"}}}",
    );
    let s = m3u8_mcp::invoke::tool_response(id, &call, ToolOutcome::FetchErr("no scheme".to_string()));
    assert_eq!(
        s,
        "{\"jsonrpc\":\"2.0\",\"id\":4,\"result\":{\"content\":[{\"type\":\"text\",\"text\":\"Failed to fetch m3u8: no scheme\"}],\"isError\":true}}"
    );
}

#[test]
fn download_defaults_output_path() {
    let (_, call) = expect_invoke(
        "{\"id\":1,\"method\":\"tools/call\",\"params\":{\"name\":\"m3u8_download\",\"arguments\":{\"url\":\"http://u\"}}}",
    );
    match &call {
        ToolAction::RunDownload { url, output } => {
            assert_eq!(url, "http://u");
            assert_eq!(output, "output.mp4");
        },
        _ => panic!("wrong action"),
    }
}

#[test]
fn download_command_is_the_remux_invocation() {
    let call = ToolAction::RunDownload { url: "http://u".to_string(), output: "o.mp4".to_string() };
    let (prog, args) = call.run_command().unwrap();
    assert_eq!(prog, "ffmpeg");
    assert_eq!(args, vec!["-y", "-i", "http://u", "-c", "copy", "-bsf:a", "aac_adtstoasc", "o.mp4"]);
}

#[test]
fn probe_command_asks_for_structured_output() {
    let call = ToolAction::RunProbe { url: "http://u".to_string() };
    let (prog, args) = call.run_command().unwrap();
    assert_eq!(prog, "ffprobe");
    assert_eq!(
        args,
        vec!["-v", "quiet", "-print_format", "json", "-show_format", "-show_streams", "http://u"]
    );
}

#[test]
fn download_success_and_failure_results() {
    let call = ToolAction::RunDownload { url: "u".to_string(), output: "o.mp4".to_string() };
    let ok = m3u8_mcp::invoke::tool_response(
        Json::Num("7".to_string()),
        &call,
        ToolOutcome::RunDone { success: true, stdout: String::new(), stderr: String::new() },
    );
    assert_eq!(
        ok,
        "{\"jsonrpc\":\"2.0\",\"id\":7,\"result\":{\"content\":[{\"type\":\"text\",\"text\":\"Downloaded to: o.mp4\"}]}}"
    );
    let bad = m3u8_mcp::invoke::tool_response(
        Json::Num("7".to_string()),
        &call,
        ToolOutcome::RunDone { success: false, stdout: String::new(), stderr: "boom".to_string() },
    );
    assert!(bad.contains("\"text\":\"FFmpeg error: boom\""));
    assert!(bad.contains("\"isError\":true"));
    let gone = m3u8_mcp::invoke::tool_response(
        Json::Num("7".to_string()),
        &call,
        ToolOutcome::RunFailed("not found".to_string()),
    );
    assert!(gone.contains("\"text\":\"Failed to run ffmpeg: not found\""));
    assert!(gone.contains("\"isError\":true"));
}

#[test]
fn probe_ignores_exit_status() {
    let call = ToolAction::RunProbe { url: "u".to_string() };
    let s = m3u8_mcp::invoke::tool_response(
        Json::Num("8".to_string()),
        &call,
        ToolOutcome::RunDone { success: false, stdout: String::new(), stderr: "x".to_string() },
    );
    assert_eq!(
        s,
        "{\"jsonrpc\":\"2.0\",\"id\":8,\"result\":{\"content\":[{\"type\":\"text\",\"text\":\"\"}]}}"
    );
}

#[test]
fn spawn_ui_reports_success_and_forwards_the_url() {
    let (id, call) = expect_invoke(
        "{\"id\":9,\"method\":\"tools/call\",\"params\":{\"name\":\"open_capture_ui\",\"arguments\":{\"url\":\"http://u\"}}}",
    );
    let args = call.spawn_args().unwrap();
    assert_eq!(args, vec!["--url", "http://u"]);
    let s = m3u8_mcp::invoke::tool_response(id, &call, ToolOutcome::SpawnDone);
    assert_eq!(
        s,
        "{\"jsonrpc\":\"2.0\",\"id\":9,\"result\":{\"content\":[{\"type\":\"text\",\"text\":\"Opened m3u8 capture UI\"}]}}"
    );
    let bare = ToolAction::SpawnUi { url: None };
    assert_eq!(bare.spawn_args().unwrap(), Vec::<String>::new());
}

#[test]
fn non_object_params_mean_unknown_empty_tool() {
    let s = expect_respond("{\"id\":1,\"method\":\"tools/call\",\"params\":[1,2]}");
    assert!(s.contains("Unknown tool: "));
}
