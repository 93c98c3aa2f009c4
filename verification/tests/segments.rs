use m3u8_mcp::invoke::{extract_segments_text, ToolAction, ToolOutcome};
use m3u8_mcp::Json;

#[test]
fn extraction_keeps_entries_in_order() {
    let body = "#HEADER\nseg1.ts\n\nseg2.ts\n#COMMENT\nseg3.ts".to_string();
    assert_eq!(
        extract_segments_text(&body),
        "[\n  \"seg1.ts\",\n  \"seg2.ts\",\n  \"seg3.ts\"\n]"
    );
}

#[test]
fn extraction_is_idempotent_on_its_own_output_lines() {
    let body = "#HEADER\nseg1.ts\n\nseg2.ts\n#COMMENT\nseg3.ts".to_string();
    let again = "seg1.ts\nseg2.ts\nseg3.ts".to_string();
    assert_eq!(extract_segments_text(&body), extract_segments_text(&again));
}

#[test]
fn empty_playlist_extracts_nothing() {
    assert_eq!(extract_segments_text(&String::new()), "[]");
    assert_eq!(extract_segments_text(&"#A\n#B\n \n".to_string()), "[]");
}

#[test]
fn carriage_returns_before_line_feeds_are_stripped() {
    let body = "#H\r\nseg1.ts\r\nseg2.ts".to_string();
    assert_eq!(extract_segments_text(&body), "[\n  \"seg1.ts\",\n  \"seg2.ts\"\n]");
}

#[test]
fn inner_whitespace_is_kept_and_escaped() {
    let body = "seg 1.ts\n\"odd\".ts".to_string();
    assert_eq!(
        extract_segments_text(&body),
        "[\n  \"seg 1.ts\",\n  \"\\\"odd\\\".ts\"\n]"
    );
}

#[test]
fn indented_comment_is_not_a_comment() {
    let body = " #looks-like-a-comment\nseg.ts".to_string();
    assert_eq!(
        extract_segments_text(&body),
        "[\n  \" #looks-like-a-comment\",\n  \"seg.ts\"\n]"
    );
}

#[test]
fn segments_tool_reports_the_extracted_list() {
    let call = ToolAction::FetchSegments { url: "http://u".to_string() };
    let s = m3u8_mcp::invoke::tool_response(
        Json::Num("6".to_string()),
        &call,
        ToolOutcome::FetchOk("#H\na.ts\nb.ts".to_string()),
    );
    assert_eq!(
        s,
        "{\"jsonrpc\":\"2.0\",\"id\":6,\"result\":{\"content\":[{\"type\":\"text\",\"text\":\"[\\n  \\\"a.ts\\\",\\n  \\\"b.ts\\\"\\n]\"}]}}"
    );
}

#[test]
fn segments_tool_fetch_failure_is_flagged() {
    let call = ToolAction::FetchSegments { url: "u".to_string() };
    let s = m3u8_mcp::invoke::tool_response(
        Json::Num("6".to_string()),
        &call,
        ToolOutcome::ReadErr("cut off".to_string()),
    );
    assert!(s.contains("\"text\":\"Failed to read: cut off\""));
    assert!(s.contains("\"isError\":true"));
}
