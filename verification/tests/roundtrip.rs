use json_pretty_compact::PrettyCompactFormatter;
use serde_json::Value;

fn write_key(fmt: &mut PrettyCompactFormatter, out: &mut Vec<u8>, key: &str) {
    fmt.begin_string();
    fmt.write_string_fragment(key).unwrap();
    fmt.end_string(out).unwrap();
}

fn build_document(fmt: &mut PrettyCompactFormatter) -> Vec<u8> {
    let mut out = vec![];

    fmt.begin_object();
    write_key(fmt, &mut out, "a");
    fmt.begin_array();
    fmt.scalar(b"1".to_vec(), &mut out);
    fmt.scalar(b"2".to_vec(), &mut out);
    fmt.end_array(&mut out).unwrap();
    write_key(fmt, &mut out, "b");
    fmt.begin_object();
    write_key(fmt, &mut out, "c");
    fmt.begin_string();
    fmt.write_string_fragment("x").unwrap();
    fmt.end_string(&mut out).unwrap();
    fmt.end_object(&mut out).unwrap();
    write_key(fmt, &mut out, "d");
    fmt.scalar(b"null".to_vec(), &mut out);
    write_key(fmt, &mut out, "e");
    fmt.scalar(b"true".to_vec(), &mut out);
    fmt.end_object(&mut out).unwrap();

    out
}

#[test]
fn round_trip_with_budget() {
    // Formatting is a pure presentation transform: parsing the output
    // gives back the original value.
    let mut fmt = PrettyCompactFormatter::new().with_max_line_length(20);
    let out = build_document(&mut fmt);

    let reparsed: Value = serde_json::from_slice(&out).unwrap();
    let original: Value =
        serde_json::from_str("{\"a\":[1,2],\"b\":{\"c\":\"x\"},\"d\":null,\"e\":true}").unwrap();

    assert_eq!(reparsed, original);
}

#[test]
fn round_trip_without_budget() {
    let mut fmt = PrettyCompactFormatter::no_rules();
    let out = build_document(&mut fmt);

    let reparsed: Value = serde_json::from_slice(&out).unwrap();
    let original: Value =
        serde_json::from_str("{\"a\":[1,2],\"b\":{\"c\":\"x\"},\"d\":null,\"e\":true}").unwrap();

    assert_eq!(reparsed, original);
}

#[test]
fn round_trip_fully_compact() {
    let mut fmt = PrettyCompactFormatter::new();
    let out = build_document(&mut fmt);

    assert_eq!(
        out,
        b"{ \"a\": [ 1, 2 ], \"b\": { \"c\": \"x\" }, \"d\": null, \"e\": true }"
    );

    let reparsed: Value = serde_json::from_slice(&out).unwrap();
    let original: Value =
        serde_json::from_str("{\"a\":[1,2],\"b\":{\"c\":\"x\"},\"d\":null,\"e\":true}").unwrap();

    assert_eq!(reparsed, original);
}
