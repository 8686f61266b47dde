use tbox::format::{format_json, format_code, format_javascript, format_generic,
    format_json_pretty, compress_json, validate_json};
use tbox::escape::{escape_json, unescape_json};

#[test]
fn pretty_print_uses_two_space_indent() {
    let r = format_json(String::from("{\"a\":{\"b\":1}}")).unwrap();
    assert_eq!(r.formatted, "{\n  \"a\": {\n    \"b\": 1\n  }\n}");
    assert_eq!(r.language, "json");
}

#[test]
fn pretty_print_rejects_bad_json() {
    match format_json(String::from("{oops")) {
        Err(e) => assert!(e.starts_with("JSON解析错误: ")),
        Ok(_) => panic!("bad JSON must be refused"),
    }
}

#[test]
fn format_code_dispatches_on_language() {
    let json = format_code(String::from("[1]"), String::from("json"), None, None).unwrap();
    assert_eq!(json.formatted, "[\n  1\n]");
    assert_eq!(json.language, "json");

    let js = format_code(
        String::from("function f() {\nreturn 1;\n}"),
        String::from("javascript"),
        None,
        None,
    ).unwrap();
    assert_eq!(js.formatted, "function f() {\n  return 1;\n}");

    let other = format_code(
        String::from("if x:\ndone\nend"),
        String::from("python"),
        Some(4),
        None,
    ).unwrap();
    assert_eq!(other.formatted, "if x:\n    done\nend");
}

#[test]
fn format_javascript_indents_blocks() {
    let out = format_javascript("const a = [\n1,\n2\n];\n", "  ");
    assert_eq!(out, "const a = [\n  1,\n  2\n];");
}

#[test]
fn format_javascript_with_tabs() {
    let r = format_code(
        String::from("f(\nx\n)"),
        String::from("typescript"),
        None,
        Some(true),
    ).unwrap();
    assert_eq!(r.formatted, "f(\n\tx\n)");
}

#[test]
fn format_generic_indents_after_colon() {
    let out = format_generic("case:\nbody\nend case", "  ");
    assert_eq!(out, "case:\n  body\nend case");
}

#[test]
fn format_json_pretty_with_wider_indent() {
    let r = format_json_pretty(String::from("{\"a\":{\"b\":1}}"), Some(4)).unwrap();
    assert!(r.is_valid);
    assert_eq!(r.formatted, "{\n    \"a\": {\n        \"b\": 1\n    }\n}");
}

#[test]
fn format_json_pretty_default_indent() {
    let r = format_json_pretty(String::from("[true]"), None).unwrap();
    assert_eq!(r.formatted, "[\n  true\n]");
}

#[test]
fn compress_strips_all_spacing() {
    let r = compress_json(String::from("{\n  \"a\": [1, 2]\n}")).unwrap();
    assert_eq!(r.formatted, "{\"a\":[1,2]}");
    assert!(r.is_valid);
}

#[test]
fn validate_accepts_and_rejects() {
    assert_eq!(validate_json(String::from("{\"a\":null}")).unwrap(), true);
    match validate_json(String::from("nope")) {
        Err(e) => assert!(e.starts_with("JSON无效: ")),
        Ok(_) => panic!("invalid JSON must be refused"),
    }
}

#[test]
fn escape_doubles_the_escapes() {
    let r = escape_json(String::from("{\"a\":\"x\\ny\"}")).unwrap();
    assert_eq!(r.escaped, "{\\\"a\\\":\\\"x\\\\ny\\\"}");
}

#[test]
fn escape_rejects_bad_json() {
    assert!(escape_json(String::from("{")).is_err());
}

#[test]
fn unescape_undoes_the_escape() {
    let r = unescape_json(String::from("{\\\"a\\\":1}")).unwrap();
    assert_eq!(r.unescaped, "{\"a\":1}");
    assert!(r.is_valid);
}

#[test]
fn unescape_reports_invalid_output() {
    let r = unescape_json(String::from("not json")).unwrap();
    assert_eq!(r.unescaped, "not json");
    assert!(!r.is_valid);
}

#[test]
fn escape_then_unescape_returns_the_text() {
    let text = String::from("{\"k\":\"ab\",\"n\":1}");
    let escaped = escape_json(text.clone()).unwrap().escaped;
    let back = unescape_json(escaped).unwrap();
    assert_eq!(back.unescaped, text);
    assert!(back.is_valid);
}

#[test]
fn large_document_formats_cleanly() {
    let text = String::from(
        "{\"filters\":{\"terms\":{\"city\":330100},\"range\":{\"price\":[null,2100]}},\
         \"start\":1,\"debug\":false}",
    );
    let r = format_json(text.clone()).unwrap();
    assert!(r.formatted.len() > text.len());
    assert_eq!(validate_json(r.formatted).unwrap(), true);
}

#[test]
fn rendering_matches_the_json_library() {
    let text = "{\"b\":[1,2.5,null],\"a\":\"x\"}";
    let value: serde_json::Value = serde_json::from_str(text).unwrap();
    let pretty = serde_json::to_string_pretty(&value).unwrap();
    let compact = serde_json::to_string(&value).unwrap();
    assert_eq!(tbox::format::format_json(String::from(text)).unwrap().formatted, pretty);
    assert_eq!(tbox::format::compress_json(String::from(text)).unwrap().formatted, compact);
}
