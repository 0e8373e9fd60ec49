use json_pretty_compact::error::Error;
use json_pretty_compact::PrettyCompactFormatter;

#[test]
fn basic_usage() {
    // A lone scalar passes through unchanged.
    let mut fmt = PrettyCompactFormatter::new();
    let mut target = vec![];

    fmt.scalar(b"true".to_vec(), &mut target);

    assert_eq!(target, b"true");
}

#[test]
fn compact_array() {
    let mut fmt = PrettyCompactFormatter::new();
    let mut out = vec![];

    fmt.begin_array();
    fmt.scalar(b"1".to_vec(), &mut out);
    fmt.scalar(b"2".to_vec(), &mut out);
    fmt.scalar(b"3".to_vec(), &mut out);
    fmt.end_array(&mut out).unwrap();

    assert_eq!(out, b"[ 1, 2, 3 ]");
}

#[test]
fn compact_object() {
    let mut fmt = PrettyCompactFormatter::new();
    let mut out = vec![];

    fmt.begin_object();
    fmt.begin_string();
    fmt.write_string_fragment("a").unwrap();
    fmt.end_string(&mut out).unwrap();
    fmt.scalar(b"1".to_vec(), &mut out);
    fmt.begin_string();
    fmt.write_string_fragment("b").unwrap();
    fmt.end_string(&mut out).unwrap();
    fmt.scalar(b"2".to_vec(), &mut out);
    fmt.end_object(&mut out).unwrap();

    assert_eq!(out, b"{ \"a\": 1, \"b\": 2 }");
}

#[test]
fn empty_array_and_object() {
    let mut fmt = PrettyCompactFormatter::new();
    let mut out = vec![];

    fmt.begin_array();
    fmt.end_array(&mut out).unwrap();
    assert_eq!(out, b"[ ]");

    let mut out2 = vec![];
    fmt.begin_object();
    fmt.end_object(&mut out2).unwrap();
    assert_eq!(out2, b"{ }");
}

#[test]
fn empty_compounds_stay_compact_without_budget() {
    // Even with compaction disabled, an empty array renders as `[ ]`.
    let mut fmt = PrettyCompactFormatter::no_rules();
    let mut out = vec![];

    fmt.begin_object();
    fmt.begin_string();
    fmt.write_string_fragment("a").unwrap();
    fmt.end_string(&mut out).unwrap();
    fmt.begin_array();
    fmt.end_array(&mut out).unwrap();
    fmt.end_object(&mut out).unwrap();

    assert_eq!(out, b"{\n  \"a\": [ ]\n}");
}

#[test]
fn unmatched_end_array() {
    let mut fmt = PrettyCompactFormatter::new();
    let mut out = vec![];

    let err = fmt.end_array(&mut out).unwrap_err();

    assert!(matches!(err, Error::NoArrayStart));
    assert!(out.is_empty());
}

#[test]
fn unmatched_end_object() {
    let mut fmt = PrettyCompactFormatter::new();
    let mut out = vec![];

    let err = fmt.end_object(&mut out).unwrap_err();

    assert!(matches!(err, Error::NoObjectStart));
    assert!(out.is_empty());
}

#[test]
fn wrong_kind_end_object_inside_array() {
    let mut fmt = PrettyCompactFormatter::new();
    let mut out = vec![];

    fmt.begin_array();
    let err = fmt.end_object(&mut out).unwrap_err();

    assert!(matches!(err, Error::UnexpectedEvent { expected, found }
        if expected == "BeginObject" && found == "BeginArray"));
    assert!(out.is_empty());
}

#[test]
fn wrong_kind_end_array_inside_object() {
    let mut fmt = PrettyCompactFormatter::new();
    let mut out = vec![];

    fmt.begin_object();
    let err = fmt.end_array(&mut out).unwrap_err();

    assert!(matches!(err, Error::UnexpectedEvent { expected, found }
        if expected == "BeginArray" && found == "BeginObject"));
    assert!(out.is_empty());
}

#[test]
fn odd_object_span() {
    // A key without a value is a structural error.
    let mut fmt = PrettyCompactFormatter::new();
    let mut out = vec![];

    fmt.begin_object();
    fmt.begin_string();
    fmt.write_string_fragment("a").unwrap();
    fmt.end_string(&mut out).unwrap();
    let err = fmt.end_object(&mut out).unwrap_err();

    assert!(matches!(err, Error::UnexpectedEvent { expected, found }
        if expected == "Data" && found == "EndObject"));
    assert!(out.is_empty());
}

#[test]
fn fragment_without_open_string() {
    let mut fmt = PrettyCompactFormatter::new();

    let err = fmt.write_string_fragment("a").unwrap_err();

    assert!(matches!(err, Error::EmptyTokenQueue));
}

#[test]
fn end_string_without_open_string() {
    let mut fmt = PrettyCompactFormatter::new();
    let mut out = vec![];

    let err = fmt.end_string(&mut out).unwrap_err();

    assert!(matches!(err, Error::EmptyTokenQueue));
}

#[test]
fn fragment_on_marker() {
    let mut fmt = PrettyCompactFormatter::new();

    fmt.begin_array();
    let err = fmt.write_string_fragment("a").unwrap_err();

    assert!(matches!(err, Error::UnexpectedEvent { expected, found }
        if expected == "Data" && found == "BeginArray"));
}

#[test]
fn key_must_be_data() {
    // An array standing in a key position aborts the rendering.
    let mut fmt = PrettyCompactFormatter::new();
    let mut out = vec![];

    fmt.begin_object();
    fmt.begin_array();
    fmt.end_array(&mut out).unwrap();
    fmt.scalar(b"1".to_vec(), &mut out);
    let err = fmt.end_object(&mut out).unwrap_err();

    assert!(matches!(err, Error::UnexpectedEvent { expected, found }
        if expected == "Data" && found == "Array"));
}

#[test]
fn string_fragments_accumulate() {
    let mut fmt = PrettyCompactFormatter::new();
    let mut out = vec![];

    fmt.begin_string();
    fmt.write_string_fragment("he").unwrap();
    fmt.write_string_fragment("llo").unwrap();
    fmt.end_string(&mut out).unwrap();

    assert_eq!(out, b"\"hello\"");
}

#[test]
fn expanded_array_without_budget() {
    let mut fmt = PrettyCompactFormatter::no_rules();
    let mut out = vec![];

    fmt.begin_array();
    fmt.scalar(b"1".to_vec(), &mut out);
    fmt.scalar(b"2".to_vec(), &mut out);
    fmt.end_array(&mut out).unwrap();

    assert_eq!(out, b"[\n  1,\n  2\n]");
}

#[test]
fn expanded_object_without_budget() {
    let mut fmt = PrettyCompactFormatter::no_rules();
    let mut out = vec![];

    fmt.begin_object();
    fmt.begin_string();
    fmt.write_string_fragment("a").unwrap();
    fmt.end_string(&mut out).unwrap();
    fmt.scalar(b"1".to_vec(), &mut out);
    fmt.begin_string();
    fmt.write_string_fragment("b").unwrap();
    fmt.end_string(&mut out).unwrap();
    fmt.scalar(b"2".to_vec(), &mut out);
    fmt.end_object(&mut out).unwrap();

    assert_eq!(out, b"{\n  \"a\": 1,\n  \"b\": 2\n}");
}

#[test]
fn custom_indent() {
    let mut fmt = PrettyCompactFormatter::no_rules().with_indent(4);
    let mut out = vec![];

    fmt.begin_array();
    fmt.scalar(b"1".to_vec(), &mut out);
    fmt.end_array(&mut out).unwrap();

    assert_eq!(out, b"[\n    1\n]");
}

#[test]
fn budget_is_strict() {
    // `[ 1, 2, 3 ]` is 11 bytes wide: a budget of exactly 11 expands it,
    // a budget of 12 keeps it on one line.
    let mut fmt = PrettyCompactFormatter::new().with_max_line_length(11);
    let mut out = vec![];

    fmt.begin_array();
    fmt.scalar(b"1".to_vec(), &mut out);
    fmt.scalar(b"2".to_vec(), &mut out);
    fmt.scalar(b"3".to_vec(), &mut out);
    fmt.end_array(&mut out).unwrap();

    assert_eq!(out, b"[\n  1,\n  2,\n  3\n]");

    let mut fmt2 = PrettyCompactFormatter::new().with_max_line_length(12);
    let mut out2 = vec![];

    fmt2.begin_array();
    fmt2.scalar(b"1".to_vec(), &mut out2);
    fmt2.scalar(b"2".to_vec(), &mut out2);
    fmt2.scalar(b"3".to_vec(), &mut out2);
    fmt2.end_array(&mut out2).unwrap();

    assert_eq!(out2, b"[ 1, 2, 3 ]");
}

#[test]
fn key_fit_keeps_value_on_key_line() {
    // The object itself is too wide (17 >= 16), but the value fits right
    // after its key: column 7 plus width 8 stays under 16.
    let mut fmt = PrettyCompactFormatter::new().with_max_line_length(16);
    let mut out = vec![];

    fmt.begin_object();
    fmt.begin_string();
    fmt.write_string_fragment("k").unwrap();
    fmt.end_string(&mut out).unwrap();
    fmt.begin_array();
    fmt.scalar(b"1".to_vec(), &mut out);
    fmt.scalar(b"2".to_vec(), &mut out);
    fmt.end_array(&mut out).unwrap();
    fmt.end_object(&mut out).unwrap();

    assert_eq!(out, b"{\n  \"k\": [ 1, 2 ]\n}");
}

#[test]
fn key_fit_forces_expansion_when_over_budget() {
    // With a budget of 15 the same value no longer fits after its key
    // (column 7 plus width 8 is exactly 15), even though at its own
    // nominal indentation it would (column 2 plus width 8 is 10): the
    // key-fit heuristic forces the expanded layout.
    let mut fmt = PrettyCompactFormatter::new().with_max_line_length(15);
    let mut out = vec![];

    fmt.begin_object();
    fmt.begin_string();
    fmt.write_string_fragment("k").unwrap();
    fmt.end_string(&mut out).unwrap();
    fmt.begin_array();
    fmt.scalar(b"1".to_vec(), &mut out);
    fmt.scalar(b"2".to_vec(), &mut out);
    fmt.end_array(&mut out).unwrap();
    fmt.end_object(&mut out).unwrap();

    assert_eq!(out, b"{\n  \"k\": [\n    1,\n    2\n  ]\n}");
}

#[test]
fn nested_arrays_stay_compact_under_budget() {
    let mut fmt = PrettyCompactFormatter::new();
    let mut out = vec![];

    fmt.begin_array();
    fmt.begin_array();
    fmt.begin_array();
    fmt.end_array(&mut out).unwrap();
    fmt.end_array(&mut out).unwrap();
    fmt.end_array(&mut out).unwrap();

    assert_eq!(out, b"[ [ [ ] ] ]");
}

#[test]
fn formatter_is_reusable_across_values() {
    // Once a top-level value completes, the next one starts fresh.
    let mut fmt = PrettyCompactFormatter::new();
    let mut out = vec![];

    fmt.scalar(b"true".to_vec(), &mut out);
    fmt.scalar(b"null".to_vec(), &mut out);
    fmt.begin_array();
    fmt.end_array(&mut out).unwrap();

    assert_eq!(out, b"truenull[ ]");
}

#[test]
fn same_events_render_identically() {
    let run = || {
        let mut fmt = PrettyCompactFormatter::new().with_max_line_length(16);
        let mut out = vec![];
        fmt.begin_object();
        fmt.begin_string();
        fmt.write_string_fragment("k").unwrap();
        fmt.end_string(&mut out).unwrap();
        fmt.begin_array();
        fmt.scalar(b"1".to_vec(), &mut out);
        fmt.scalar(b"2".to_vec(), &mut out);
        fmt.end_array(&mut out).unwrap();
        fmt.end_object(&mut out).unwrap();
        out
    };

    assert_eq!(run(), run());
}

#[test]
fn long_string_values_expand_one_pair_per_line() {
    // The object's one-line width exceeds the default budget of 120, so
    // it expands to one key per line; each pair alone fits its line, so
    // every value stays on its key's line.
    let long_a = "a".repeat(70);
    let long_b = "b".repeat(70);
    let mut fmt = PrettyCompactFormatter::new();
    let mut out = vec![];

    fmt.begin_object();
    fmt.begin_string();
    fmt.write_string_fragment("first").unwrap();
    fmt.end_string(&mut out).unwrap();
    fmt.begin_string();
    fmt.write_string_fragment(&long_a).unwrap();
    fmt.end_string(&mut out).unwrap();
    fmt.begin_string();
    fmt.write_string_fragment("second").unwrap();
    fmt.end_string(&mut out).unwrap();
    fmt.begin_string();
    fmt.write_string_fragment(&long_b).unwrap();
    fmt.end_string(&mut out).unwrap();
    fmt.end_object(&mut out).unwrap();

    let expected = format!(
        "{{\n  \"first\": \"{}\",\n  \"second\": \"{}\"\n}}",
        long_a, long_b
    );
    assert_eq!(out, expected.as_bytes());
}

#[test]
fn key_fit_overrides_nominal_expansion() {
    // With a very wide indent the value would expand at its own nominal
    // column (30 + 5 is not under 30), but it fits right after its key
    // (column 7 plus width 5): the key-fit decision forces it onto the
    // key's line.
    let mut fmt = PrettyCompactFormatter::new().with_indent(30).with_max_line_length(30);
    let mut out = vec![];

    fmt.begin_object();
    fmt.begin_string();
    fmt.write_string_fragment("k").unwrap();
    fmt.end_string(&mut out).unwrap();
    fmt.begin_array();
    fmt.scalar(b"1".to_vec(), &mut out);
    fmt.end_array(&mut out).unwrap();
    fmt.end_object(&mut out).unwrap();

    assert_eq!(out, b"{ \"k\": [ 1 ] }");
}
