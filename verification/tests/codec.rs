use m3u8_mcp::json::Json;
use m3u8_mcp::parse::parse_chars;
use m3u8_mcp::ser::{dec_string, to_text};

fn parse(s: &str) -> Option<Json> {
    let cs: Vec<char> = s.chars().collect();
    parse_chars(&cs)
}

fn round_trip(s: &str) -> String {
    to_text(&parse(s).expect("input should parse"))
}

#[test]
fn scalars_round_trip() {
    assert_eq!(round_trip("null"), "null");
    assert_eq!(round_trip("true"), "true");
    assert_eq!(round_trip("false"), "false");
    assert_eq!(round_trip("0"), "0");
    assert_eq!(round_trip("-12"), "-12");
    assert_eq!(round_trip("3.25e-7"), "3.25e-7");
    assert_eq!(round_trip("\"hi\""), "\"hi\"");
}

#[test]
fn whitespace_between_tokens_is_accepted() {
    assert_eq!(round_trip(" { \"a\" : [ 1 , 2 ] } "), "{\"a\":[1,2]}");
    assert_eq!(round_trip("\t[\r\n]"), "[]");
}

#[test]
fn string_escapes_decode() {
    assert_eq!(round_trip("\"a\\\"b\""), "\"a\\\"b\"");
    assert_eq!(round_trip("\"a\\\\b\""), "\"a\\\\b\"");
    assert_eq!(round_trip("\"\\b\\f\\n\\r\\t\""), "\"\\b\\f\\n\\r\\t\"");
    // A solidus may be escaped on the way in but is written bare.
    assert_eq!(round_trip("\"a\\/b\""), "\"a/b\"");
    // Coded characters decode; printable ones are re-emitted bare.
    assert_eq!(round_trip("\"\\u0041\""), "\"A\"");
    // Control characters are re-escaped, short forms first.
    assert_eq!(round_trip("\"\\u0009\""), "\"\\t\"");
    assert_eq!(round_trip("\"\\u0001\""), "\"\\u0001\"");
}

#[test]
fn surrogate_pairs_combine() {
    assert_eq!(round_trip("\"\\ud83d\\ude00\""), "\"\u{1F600}\"");
    assert!(parse("\"\\ud83d\"").is_none());
    assert!(parse("\"\\ude00\\ud83d\"").is_none());
}

#[test]
fn raw_control_characters_are_refused() {
    assert!(parse("\"a\tb\"").is_none());
}

#[test]
fn number_grammar_is_enforced() {
    assert!(parse("01").is_none());
    assert!(parse("1.").is_none());
    assert!(parse(".5").is_none());
    assert!(parse("1e").is_none());
    assert!(parse("+1").is_none());
    assert!(parse("-").is_none());
    assert_eq!(round_trip("-0"), "-0");
    assert_eq!(round_trip("10"), "10");
    assert_eq!(round_trip("1e+10"), "1e+10");
}

#[test]
fn trailing_text_is_refused() {
    assert!(parse("{} x").is_none());
    assert!(parse("1 2").is_none());
    assert!(parse("").is_none());
    assert!(parse("   ").is_none());
}

#[test]
fn structures_are_refused_when_unclosed() {
    assert!(parse("[1,").is_none());
    assert!(parse("{\"a\":1").is_none());
    assert!(parse("[1 2]").is_none());
    assert!(parse("{\"a\" 1}").is_none());
    assert!(parse("{a:1}").is_none());
    assert!(parse("[,]").is_none());
}

#[test]
fn nesting_is_bounded() {
    let shallow = format!("{}1{}", "[".repeat(50), "]".repeat(50));
    assert!(parse(&shallow).is_some());
    let deep = format!("{}1{}", "[".repeat(200), "]".repeat(200));
    assert!(parse(&deep).is_none());
}

#[test]
fn non_ascii_text_passes_through() {
    assert_eq!(round_trip("\"caf\u{e9} \u{1F600}\""), "\"caf\u{e9} \u{1F600}\"");
}

#[test]
fn object_order_is_preserved() {
    assert_eq!(round_trip("{\"b\":1,\"a\":2}"), "{\"b\":1,\"a\":2}");
}

#[test]
fn decimal_text_of_codes() {
    assert_eq!(dec_string(0), "0");
    assert_eq!(dec_string(7), "7");
    assert_eq!(dec_string(-32700), "-32700");
    assert_eq!(dec_string(i64::MIN), "-9223372036854775808");
    assert_eq!(dec_string(i64::MAX), "9223372036854775807");
}

#[test]
fn get_reads_the_last_occurrence() {
    let v = parse("{\"a\":1,\"a\":2}").unwrap();
    match v.get("a") {
        Some(Json::Num(s)) => assert_eq!(s, "2"),
        _ => panic!("lookup failed"),
    }
    assert!(v.get("b").is_none());
}

#[test]
fn dup_copies_deeply() {
    let v = parse("{\"a\":[1,\"x\"],\"b\":{\"c\":null}}").unwrap();
    let w = v.dup();
    assert_eq!(v, w);
    assert_eq!(to_text(&w), "{\"a\":[1,\"x\"],\"b\":{\"c\":null}}");
}
