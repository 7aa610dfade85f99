use autoaim::text::{
    eq_ignore_ascii_case, escape_single_quotes, json_escape, str_contains, str_is_blank,
    str_starts_with, to_ascii_lowercase, trim,
};

#[test]
fn json_escape_escapes_quotes_backslashes_and_breaks() {
    assert_eq!(json_escape("plain"), "plain");
    assert_eq!(json_escape("a\"b"), "a\\\"b");
    assert_eq!(json_escape("C:\\models\\x.onnx"), "C:\\\\models\\\\x.onnx");
    assert_eq!(json_escape("one\ntwo\r"), "one\\ntwo\\r");
    assert_eq!(json_escape("tab\tstays"), "tab\tstays");
    assert_eq!(json_escape(""), "");
}

#[test]
fn escape_single_quotes_doubles_each_quote() {
    assert_eq!(escape_single_quotes("C:\\Program Files\\autoaim"), "C:\\Program Files\\autoaim");
    assert_eq!(escape_single_quotes("it's"), "it''s");
    assert_eq!(escape_single_quotes("''"), "''''");
}

#[test]
fn trim_and_blank_follow_unicode_white_space() {
    assert_eq!(trim("  models/a.onnx \t\n"), "models/a.onnx");
    assert_eq!(trim("\u{3000}x\u{a0}"), "x");
    assert_eq!(trim("   "), "");
    assert!(str_is_blank(" \t\r\n"));
    assert!(str_is_blank(""));
    assert!(!str_is_blank(" x "));
}

#[test]
fn ascii_case_helpers() {
    assert_eq!(to_ascii_lowercase("YoLo-Ä"), "yolo-Ä");
    assert!(eq_ignore_ascii_case("ONNX", "onnx"));
    assert!(!eq_ignore_ascii_case("onnx", "onn"));
    assert!(str_contains("models/yolov8n.onnx", "yolo"));
    assert!(!str_contains("yol", "yolo"));
    assert!(str_contains("abc", ""));
    assert!(str_starts_with("Latest version: 1", "Latest version:"));
    assert!(!str_starts_with("Late", "Latest"));
}

#[test]
fn json_escape_reads_back_as_json() {
    for text in ["plain", "quote \" inside", "C:\\models\\yolo.onnx", "two\nlines\r\n", "\\n literal", ""] {
        let quoted = format!("\"{}\"", json_escape(text));
        assert_eq!(serde_json::from_str::<String>(&quoted).unwrap(), text);
    }
}

#[test]
fn doubled_quotes_read_back_as_the_path() {
    let path = "C:\\Users\\o'brien\\autoaim";
    let escaped = escape_single_quotes(path);
    assert_eq!(escaped, "C:\\Users\\o''brien\\autoaim");
    assert_eq!(escaped.replace("''", "'"), path);
}
