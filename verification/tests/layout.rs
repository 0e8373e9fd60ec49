use json_pretty_compact::options::Options;
use json_pretty_compact::token::Token;

#[test]
fn length_of_markers_and_leaves() {
    assert_eq!(Token::BeginObject(0).length(), 0);
    assert_eq!(Token::EndObject.length(), 0);
    assert_eq!(Token::BeginArray(0).length(), 0);
    assert_eq!(Token::EndArray.length(), 0);
    assert_eq!(Token::Data(b"abc".to_vec()).length(), 3);
}

#[test]
fn length_of_empty_compounds() {
    assert_eq!(Token::Array(0, vec![]).length(), 3);
    assert_eq!(Token::Object(0, vec![]).length(), 3);
}

#[test]
fn length_of_array() {
    // 4 for the brackets and their spaces, 1 + 2 for the children,
    // 2 for the one separator.
    let t = Token::Array(
        0,
        vec![Token::Data(b"1".to_vec()), Token::Data(b"22".to_vec())],
    );

    assert_eq!(t.length(), 9);
}

#[test]
fn length_of_object() {
    // 4 for the braces and their spaces, 3 + 1 for key and value,
    // 2 for the `": "` of the single pair.
    let t = Token::Object(
        0,
        vec![Token::Data(b"\"a\"".to_vec()), Token::Data(b"1".to_vec())],
    );

    assert_eq!(t.length(), 10);
}

#[test]
fn format_array_default_decision() {
    let t = Token::Array(
        0,
        vec![Token::Data(b"1".to_vec()), Token::Data(b"22".to_vec())],
    );
    let mut out = vec![];

    t.format(&mut out, &Options::default(), None).unwrap();

    assert_eq!(out, b"[ 1, 22 ]");
}

#[test]
fn format_array_forced_expanded() {
    let t = Token::Array(
        0,
        vec![Token::Data(b"1".to_vec()), Token::Data(b"22".to_vec())],
    );
    let mut out = vec![];

    t.format(&mut out, &Options::default(), Some(false)).unwrap();

    assert_eq!(out, b"[\n  1,\n  22\n]");
}

#[test]
fn format_forced_compact_overrides_budget() {
    let mut opts = Options::default();
    opts.set_max_len(5);
    let t = Token::Array(
        0,
        vec![Token::Data(b"1".to_vec()), Token::Data(b"22".to_vec())],
    );
    let mut out = vec![];

    t.format(&mut out, &opts, Some(true)).unwrap();

    assert_eq!(out, b"[ 1, 22 ]");
}

#[test]
fn format_object_compact() {
    let t = Token::Object(
        0,
        vec![Token::Data(b"\"a\"".to_vec()), Token::Data(b"1".to_vec())],
    );
    let mut out = vec![];

    t.format(&mut out, &Options::default(), None).unwrap();

    assert_eq!(out, b"{ \"a\": 1 }");
}

#[test]
fn format_markers_write_nothing() {
    let mut out = vec![];

    Token::BeginArray(3).format(&mut out, &Options::default(), None).unwrap();
    Token::EndArray.format(&mut out, &Options::default(), None).unwrap();
    Token::BeginObject(3).format(&mut out, &Options::default(), None).unwrap();
    Token::EndObject.format(&mut out, &Options::default(), None).unwrap();

    assert!(out.is_empty());
}

#[test]
fn options_defaults_and_setters() {
    let mut opts = Options::default();
    assert_eq!(opts.indent(), 2);
    assert_eq!(opts.max_len(), Some(120));

    opts.set_indent(4);
    opts.set_max_len(80);
    assert_eq!(opts.indent(), 4);
    assert_eq!(opts.max_len(), Some(80));

    let bare = Options::no_rules();
    assert_eq!(bare.indent(), 2);
    assert_eq!(bare.max_len(), None);
}

#[test]
fn deep_value_indents_by_recorded_level() {
    // A node carries the depth it was opened at; rendering uses it even
    // when the node is formatted on its own.
    let t = Token::Array(2, vec![Token::Data(b"1".to_vec())]);
    let mut out = vec![];

    t.format(&mut out, &Options::default(), Some(false)).unwrap();

    assert_eq!(out, b"[\n      1\n    ]");
}
