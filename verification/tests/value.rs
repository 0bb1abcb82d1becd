use languages_rs::{Format, LanguageError, Node, Value};

fn text(s: &str) -> Value {
    Value::String(String::from(s))
}

fn entry(key: &str, value: Value) -> (String, Value) {
    (String::from(key), value)
}

#[test]
fn json_string_is_read() {
    let value = Value::from_string(String::from("\"Hi\""), Format::Json);
    assert_eq!(value, Ok(text("Hi")));
    assert!(value.unwrap().is_string());
}

#[test]
fn toml_table_is_read() {
    let value = Value::from_string(String::from("hi = \"Hi\""), Format::Toml);
    assert_eq!(value, Ok(Value::Object(vec![entry("hi", text("Hi"))])));
}

#[test]
fn json_object_with_array_is_read() {
    let value = Value::parse("{\"greeting\":\"Hi\",\"nums\":[\"1\",\"2\"]}", Format::Json).unwrap();
    assert!(value.is_object());
    assert_eq!(value.get("greeting"), Some(&text("Hi")));
    assert_eq!(value.get("nums"), Some(&Value::Array(vec![text("1"), text("2")])));
    assert_eq!(value.get("missing"), None);
}

#[test]
fn toml_sections_are_nested_objects() {
    let source = "hello = \"Hello\"\n\n[home]\ntitle = \"Home page\"\n\n[data]\nmessages = [\"Message 1\", \"Message 2\"]\n";
    let value = Value::parse(source, Format::Toml).unwrap();
    let expected = Value::Object(vec![
        entry("data", Value::Object(vec![entry("messages", Value::Array(vec![text("Message 1"), text("Message 2")]))])),
        entry("hello", text("Hello")),
        entry("home", Value::Object(vec![entry("title", text("Home page"))])),
    ]);
    assert_eq!(value, expected);
}

#[test]
fn json_number_is_refused() {
    assert_eq!(Value::parse("{\"count\": 5}", Format::Json), Err(LanguageError::ParseError));
}

#[test]
fn json_boolean_and_null_are_refused() {
    assert_eq!(Value::parse("[\"a\", true]", Format::Json), Err(LanguageError::ParseError));
    assert_eq!(Value::parse("{\"a\": null}", Format::Json), Err(LanguageError::ParseError));
}

#[test]
fn toml_scalars_other_than_strings_are_refused() {
    assert_eq!(Value::parse("count = 5", Format::Toml), Err(LanguageError::ParseError));
    assert_eq!(Value::parse("ratio = 1.5", Format::Toml), Err(LanguageError::ParseError));
    assert_eq!(Value::parse("on = true", Format::Toml), Err(LanguageError::ParseError));
    assert_eq!(Value::parse("day = 1979-05-27", Format::Toml), Err(LanguageError::ParseError));
}

#[test]
fn malformed_text_is_refused() {
    assert_eq!(Value::parse("{\"a\": ", Format::Json), Err(LanguageError::ParseError));
    assert_eq!(Value::parse("a = ", Format::Toml), Err(LanguageError::ParseError));
    assert_eq!(Value::parse("", Format::Json), Err(LanguageError::ParseError));
}

#[test]
fn empty_toml_is_an_empty_object() {
    assert_eq!(Value::parse("", Format::Toml), Ok(Value::Object(vec![])));
}

#[test]
fn a_text_is_read_in_its_own_format_only() {
    assert!(Value::parse("hi = \"Hi\"", Format::Json).is_err());
    assert!(Value::parse("{\"hi\": \"Hi\"}", Format::Toml).is_err());
}

#[test]
fn reading_twice_gives_equal_values() {
    let source = "{\"b\": [\"x\", {\"c\": \"d\"}], \"a\": \"y\"}";
    let first = Value::parse(source, Format::Json);
    let second = Value::parse(source, Format::Json);
    assert!(first.is_ok());
    assert_eq!(first, second);
    assert_eq!(first.unwrap().to_string(), second.unwrap().to_string());
}

#[test]
fn object_order_does_not_count() {
    let a = Value::Object(vec![entry("a", text("1")), entry("b", text("2"))]);
    let b = Value::Object(vec![entry("b", text("2")), entry("a", text("1"))]);
    assert_eq!(a, b);
    assert_eq!(a.to_string(), "{ a: 1, b: 2 }");
    assert_eq!(b.to_string(), "{ b: 2, a: 1 }");
}

#[test]
fn array_order_counts() {
    let a = Value::Array(vec![text("1"), text("2")]);
    let b = Value::Array(vec![text("2"), text("1")]);
    assert_ne!(a, b);
    assert_ne!(a, Value::Array(vec![text("1")]));
}

#[test]
fn values_of_different_kinds_differ() {
    assert_ne!(text("a"), Value::Array(vec![text("a")]));
    assert_ne!(Value::Array(vec![]), Value::Object(vec![]));
    assert_ne!(text(""), Value::Object(vec![]));
}

#[test]
fn objects_with_different_keys_or_values_differ() {
    let a = Value::Object(vec![entry("a", text("1"))]);
    assert_ne!(a, Value::Object(vec![entry("a", text("2"))]));
    assert_ne!(a, Value::Object(vec![entry("b", text("1"))]));
    assert_ne!(a, Value::Object(vec![entry("a", text("1")), entry("b", text("2"))]));
    assert_ne!(Value::Object(vec![entry("a", text("1")), entry("b", text("2"))]), a);
}

#[test]
fn the_last_entry_of_a_key_counts() {
    let twice = Value::Object(vec![entry("a", text("old")), entry("a", text("new"))]);
    assert_eq!(twice.get("a"), Some(&text("new")));
    assert_eq!(twice, Value::Object(vec![entry("a", text("new"))]));
    assert_ne!(twice, Value::Object(vec![entry("a", text("old"))]));
}

#[test]
fn rendering() {
    assert_eq!(text("Hi").to_string(), "Hi");
    assert_eq!(Value::Array(vec![]).to_string(), "[]");
    assert_eq!(Value::Array(vec![text("1")]).to_string(), "[1]");
    assert_eq!(Value::Array(vec![text("1"), text("2")]).to_string(), "[1, 2]");
    assert_eq!(Value::Object(vec![]).to_string(), "{  }");
    assert_eq!(Value::Object(vec![entry("k", text("v"))]).to_string(), "{ k: v }");
    let nested = Value::Object(vec![
        entry("title", text("Home")),
        entry("items", Value::Array(vec![text("a"), Value::Object(vec![entry("x", text("y"))])])),
    ]);
    assert_eq!(nested.to_string(), "{ title: Home, items: [a, { x: y }] }");
}

#[test]
fn accessors_tell_the_kind() {
    let s = text("Hi");
    let a = Value::Array(vec![text("1"), text("2")]);
    let o = Value::Object(vec![entry("title", text("Home page"))]);
    assert!(s.is_string() && !s.is_array() && !s.is_object());
    assert!(!a.is_string() && a.is_array() && !a.is_object());
    assert!(!o.is_string() && !o.is_array() && o.is_object());
    assert_eq!(s.get_string(), Some(String::from("Hi")));
    assert_eq!(s.get_array(), None);
    assert_eq!(s.get_object(), None);
    assert_eq!(a.get_string(), None);
    assert_eq!(a.get_array(), Some(vec![text("1"), text("2")]));
    assert_eq!(a.get_object(), None);
    assert_eq!(o.get_string(), None);
    assert_eq!(o.get_array(), None);
    assert_eq!(o.get_object(), Some(vec![entry("title", text("Home page"))]));
    assert_eq!(s.get("title"), None);
    assert_eq!(a.get("title"), None);
}

#[test]
fn a_clone_is_equal_and_apart() {
    let source = Value::Object(vec![entry("a", Value::Array(vec![text("1")]))]);
    let mut copy = source.clone();
    assert_eq!(copy, source);
    assert_eq!(copy.to_string(), source.to_string());
    if let Value::Object(entries) = &mut copy {
        entries.push(entry("b", text("2")));
    }
    assert_ne!(copy, source);
    assert_eq!(source.get("b"), None);
}

#[test]
fn from_value_keeps_the_document() {
    let node = Node::Table(vec![
        (String::from("a"), Node::Text(String::from("1"))),
        (String::from("b"), Node::List(vec![Node::Text(String::from("2")), Node::Table(vec![])])),
    ]);
    let value = Value::from_value(node).unwrap();
    assert_eq!(value.to_string(), "{ a: 1, b: [2, {  }] }");
    assert_eq!(
        value,
        Value::Object(vec![entry("a", text("1")), entry("b", Value::Array(vec![text("2"), Value::Object(vec![])]))])
    );
}

#[test]
fn from_value_refuses_other_scalars_at_any_depth() {
    assert_eq!(Value::from_value(Node::Other), Err(LanguageError::ParseError));
    let in_list = Node::List(vec![Node::Text(String::from("a")), Node::Other]);
    assert_eq!(Value::from_value(in_list), Err(LanguageError::ParseError));
    let in_table = Node::Table(vec![(String::from("k"), Node::List(vec![Node::Other]))]);
    assert_eq!(Value::from_value(in_table), Err(LanguageError::ParseError));
}

#[test]
fn node_parse_tells_scalars_apart_from_strings() {
    let node = Node::parse("[\"a\", 1, null, false]", Format::Json).unwrap();
    match node {
        Node::List(items) => {
            assert_eq!(items.len(), 4);
            assert!(matches!(items[0], Node::Text(_)));
            assert!(matches!(items[1], Node::Other));
            assert!(matches!(items[2], Node::Other));
            assert!(matches!(items[3], Node::Other));
        }
        _ => panic!("a list was expected"),
    }
    assert!(Node::parse("[", Format::Json).is_none());
}

fn nested_toml(depth: usize) -> String {
    let mut s = String::from("a = ");
    for _ in 0..depth {
        s.push('[');
    }
    s.push_str("\"x\"");
    for _ in 0..depth {
        s.push(']');
    }
    s
}

#[test]
fn nested_toml_arrays_are_read() {
    let mut expected = Value::String(String::from("x"));
    for _ in 0..64 {
        expected = Value::Array(vec![expected]);
    }
    let value = Value::from_string(nested_toml(64), Format::Toml);
    assert_eq!(value, Ok(Value::Object(vec![entry("a", expected)])));
}

#[test]
fn json_nested_too_deep_is_refused() {
    let mut s = String::new();
    for _ in 0..200 {
        s.push('[');
    }
    for _ in 0..200 {
        s.push(']');
    }
    assert_eq!(Value::from_string(s, Format::Json), Err(LanguageError::ParseError));
}

#[test]
fn a_key_written_twice() {
    let json = Value::parse("{\"a\": \"1\", \"a\": \"2\"}", Format::Json).unwrap();
    assert_eq!(json, Value::Object(vec![entry("a", text("2"))]));
    assert_eq!(json.get_object().map(|entries| entries.len()), Some(1));
    assert_eq!(Value::parse("a = \"1\"\na = \"2\"", Format::Toml), Err(LanguageError::ParseError));
}

#[test]
fn strings_keep_what_they_hold() {
    let json = Value::parse("{\"k\": \"a \\\"b\\\" \\u00e9 [x] {y}\"}", Format::Json).unwrap();
    assert_eq!(json.get("k"), Some(&text("a \"b\" \u{e9} [x] {y}")));
    let toml = Value::parse("k = 'a \"b\" \u{e9} [x] {y}'", Format::Toml).unwrap();
    assert_eq!(toml.get("k"), Some(&text("a \"b\" \u{e9} [x] {y}")));
    assert_eq!(json, toml);
}
