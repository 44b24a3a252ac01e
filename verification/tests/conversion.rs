use csv_to_json::convert::{convert_content, ErrorKind};
use csv_to_json::json::{JsonField, JsonValue};
use csv_to_json::translate::convert_line;
use csv_to_json::ApplicationOptions;

fn options() -> ApplicationOptions {
    ApplicationOptions {
        input: Vec::new(),
        output: None,
        numeric_fields: None,
        auto_numbers: false,
        pretty_print: false,
    }
}

fn strings(fields: &[&str]) -> Vec<Vec<u8>> {
    fields.iter().map(|f| f.as_bytes().to_vec()).collect()
}

fn converted(content: &str, opts: &ApplicationOptions) -> String {
    let out = convert_content(&content.as_bytes().to_vec(), opts).expect("conversion succeeds");
    String::from_utf8(out).expect("output is valid text")
}

#[test]
fn plain_strings_scenario() {
    let opts = options();
    let out = converted("id,name\n1,Alice\n2,Bob\n", &opts);
    assert_eq!(out, "[{\"id\":\"1\",\"name\":\"Alice\"},\n{\"id\":\"2\",\"name\":\"Bob\"}]");
    let parsed: serde_json::Value = serde_json::from_str(&out).expect("output parses as JSON");
    let rows = parsed.as_array().expect("an array");
    assert_eq!(rows.len(), 2);
    assert_eq!(rows[0]["id"], serde_json::Value::String("1".to_string()));
    assert_eq!(rows[0]["name"], serde_json::Value::String("Alice".to_string()));
    assert_eq!(rows[1]["id"], serde_json::Value::String("2".to_string()));
    assert_eq!(rows[1]["name"], serde_json::Value::String("Bob".to_string()));
}

#[test]
fn auto_numbers_scenario() {
    let mut opts = options();
    opts.auto_numbers = true;
    let out = converted("id,name\n1,Alice\n2,Bob\n", &opts);
    assert_eq!(out, "[{\"id\":1,\"name\":\"Alice\"},\n{\"id\":2,\"name\":\"Bob\"}]");
    let parsed: serde_json::Value = serde_json::from_str(&out).expect("output parses as JSON");
    let rows = parsed.as_array().expect("an array");
    assert_eq!(rows[0]["id"], serde_json::Value::Number(1.into()));
    assert_eq!(rows[1]["id"], serde_json::Value::Number(2.into()));
    assert_eq!(rows[0]["name"], serde_json::Value::String("Alice".to_string()));
}

#[test]
fn selective_empty_becomes_null() {
    let mut opts = options();
    opts.numeric_fields = Some(strings(&["score"]));
    let out = converted("id,score\n1,\n", &opts);
    assert_eq!(out, "[{\"id\":\"1\",\"score\":null}]");
    let parsed: serde_json::Value = serde_json::from_str(&out).expect("output parses as JSON");
    assert_eq!(parsed[0]["id"], serde_json::Value::String("1".to_string()));
    assert_eq!(parsed[0]["score"], serde_json::Value::Null);
}

#[test]
fn selective_empty_unmatched_stays_empty_string() {
    let mut opts = options();
    opts.numeric_fields = Some(strings(&["score"]));
    let out = converted("id,score\n,5\n", &opts);
    let parsed: serde_json::Value = serde_json::from_str(&out).expect("output parses as JSON");
    assert_eq!(parsed[0]["id"], serde_json::Value::String(String::new()));
    assert_eq!(parsed[0]["score"], serde_json::Value::Number(5.into()));
}

#[test]
fn unselected_numeric_text_stays_string() {
    let mut opts = options();
    opts.numeric_fields = Some(strings(&["score"]));
    let out = converted("id,score\n7,3\n", &opts);
    let parsed: serde_json::Value = serde_json::from_str(&out).expect("output parses as JSON");
    assert_eq!(parsed[0]["id"], serde_json::Value::String("7".to_string()));
    assert_eq!(parsed[0]["score"], serde_json::Value::Number(3.into()));
}

#[test]
fn never_mode_keeps_all_strings() {
    let opts = options();
    let out = converted("a,b\n1,2.5\n", &opts);
    let parsed: serde_json::Value = serde_json::from_str(&out).expect("output parses as JSON");
    assert_eq!(parsed[0]["a"], serde_json::Value::String("1".to_string()));
    assert_eq!(parsed[0]["b"], serde_json::Value::String("2.5".to_string()));
}

#[test]
fn wildcard_pattern_selects_matching_headers() {
    let mut opts = options();
    opts.numeric_fields = Some(strings(&["amount_*"]));
    let out = converted("amount_net,amount_tax,label\n10,2,x\n", &opts);
    let parsed: serde_json::Value = serde_json::from_str(&out).expect("output parses as JSON");
    assert_eq!(parsed[0]["amount_net"], serde_json::Value::Number(10.into()));
    assert_eq!(parsed[0]["amount_tax"], serde_json::Value::Number(2.into()));
    assert_eq!(parsed[0]["label"], serde_json::Value::String("x".to_string()));
}

#[test]
fn row_count_matches_records() {
    let opts = options();
    let out = converted("h\na\nb\nc\n", &opts);
    let parsed: serde_json::Value = serde_json::from_str(&out).expect("output parses as JSON");
    assert_eq!(parsed.as_array().expect("an array").len(), 3);
}

#[test]
fn element_keys_equal_header() {
    let opts = options();
    let out = converted("x,y,z\n1,2\n", &opts);
    let parsed: serde_json::Value = serde_json::from_str(&out).expect("output parses as JSON");
    let obj = parsed[0].as_object().expect("an object");
    let keys: Vec<&String> = obj.keys().collect();
    assert_eq!(keys, vec!["x", "y", "z"]);
    assert_eq!(obj["z"], serde_json::Value::String(String::new()));
}

#[test]
fn short_rows_read_missing_values_as_empty() {
    let mut opts = options();
    opts.auto_numbers = true;
    let out = converted("a,b\n1\n", &opts);
    let parsed: serde_json::Value = serde_json::from_str(&out).expect("output parses as JSON");
    assert_eq!(parsed[0]["a"], serde_json::Value::Number(1.into()));
    assert_eq!(parsed[0]["b"], serde_json::Value::String(String::new()));
}

#[test]
fn extra_row_values_are_ignored() {
    let opts = options();
    let out = converted("a\n1,2,3\n", &opts);
    let parsed: serde_json::Value = serde_json::from_str(&out).expect("output parses as JSON");
    let obj = parsed[0].as_object().expect("an object");
    assert_eq!(obj.len(), 1);
    assert_eq!(obj["a"], serde_json::Value::String("1".to_string()));
}

#[test]
fn empty_input_is_a_header_error() {
    let opts = options();
    let r = convert_content(&Vec::new(), &opts);
    assert_eq!(r, Err(ErrorKind::HeaderRead));
    let r2 = convert_content(&b"\n\r\n".to_vec(), &opts);
    assert_eq!(r2, Err(ErrorKind::HeaderRead));
}

#[test]
fn header_only_gives_empty_array() {
    let opts = options();
    let out = converted("a,b\n", &opts);
    assert_eq!(out, "[]");
}

#[test]
fn pretty_print_format() {
    let mut opts = options();
    opts.pretty_print = true;
    let out = converted("id\n1\n2\n", &opts);
    assert_eq!(out, "[{\n  \"id\": \"1\"\n},\n{\n  \"id\": \"2\"\n}]");
}

#[test]
fn string_escaping_round_trips() {
    let opts = options();
    let out = converted("note\n\"he said \"\"hi\"\", then left\"\n", &opts);
    let parsed: serde_json::Value = serde_json::from_str(&out).expect("output parses as JSON");
    assert_eq!(
        parsed[0]["note"],
        serde_json::Value::String("he said \"hi\", then left".to_string())
    );
}

#[test]
fn control_bytes_are_escaped() {
    let opts = options();
    let content = b"k\n\"a\x01b\\c\td\"\n".to_vec();
    let out = convert_content(&content, &opts).expect("conversion succeeds");
    let text = String::from_utf8(out).expect("output is valid text");
    assert!(text.contains("\\u0001"));
    assert!(text.contains("\\\\c"));
    assert!(text.contains("\\t"));
    let parsed: serde_json::Value = serde_json::from_str(&text).expect("output parses as JSON");
    assert_eq!(parsed[0]["k"], serde_json::Value::String("a\u{1}b\\c\td".to_string()));
}

#[test]
fn duplicate_headers_last_wins_in_object() {
    let opts = options();
    let out = converted("a,a\n1,2\n", &opts);
    let parsed: serde_json::Value = serde_json::from_str(&out).expect("output parses as JSON");
    assert_eq!(parsed[0]["a"], serde_json::Value::String("2".to_string()));
}

#[test]
fn convert_line_builds_pairs_in_header_order() {
    let mut opts = options();
    opts.auto_numbers = true;
    let header = strings(&["id", "name"]);
    let record = strings(&["3", "Eve"]);
    let fields: Vec<JsonField> = convert_line(&header, &record, &opts);
    assert_eq!(fields.len(), 2);
    assert_eq!(fields[0].name, b"id".to_vec());
    assert!(matches!(&fields[0].value, JsonValue::Num(n) if n == &b"3".to_vec()));
    assert_eq!(fields[1].name, b"name".to_vec());
    assert!(matches!(&fields[1].value, JsonValue::Str(s) if s == &b"Eve".to_vec()));
}

#[test]
fn multibyte_values_survive_conversion() {
    let opts = options();
    let out = converted("sz\u{f3}\n\u{e9}rt\u{e9}k\n", &opts);
    let parsed: serde_json::Value = serde_json::from_str(&out).expect("output parses as JSON");
    assert_eq!(parsed[0]["sz\u{f3}"], serde_json::Value::String("\u{e9}rt\u{e9}k".to_string()));
}

#[test]
fn auto_mode_keeps_empty_as_empty_string() {
    let mut opts = options();
    opts.auto_numbers = true;
    let out = converted("a\n\"\"\n", &opts);
    let parsed: serde_json::Value = serde_json::from_str(&out).expect("output parses as JSON");
    assert_eq!(parsed[0]["a"], serde_json::Value::String(String::new()));
}
