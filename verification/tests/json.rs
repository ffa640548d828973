use power_monitor::json::{escape_json, walk_flat_object, write_escape_json, ObjectWriter};

#[test]
fn escapes_are_those_of_json() {
    assert_eq!(escape_json("plain é text"), "plain é text");
    assert_eq!(escape_json("a\nb\rc\td"), "a\\nb\\rc\\td");
    assert_eq!(escape_json("\u{1}\u{1f}"), "\\u0001\\u001f");
    let mut out = "x".to_string();
    write_escape_json(&mut out, "\"");
    assert_eq!(out, "x\\\"");
}

#[test]
fn objects_are_written_and_read_back() {
    let mut w = ObjectWriter::new();
    w.string("name", "mac01");
    w.number("cores", 10);
    w.bare("ok", "true");
    w.optional("temp", &None);
    w.optional("power", &Some("12.3".to_string()));
    let text = w.finish();
    assert_eq!(text, "{\"name\":\"mac01\",\"cores\":10,\"ok\":true,\"temp\":null,\"power\":12.3}");
    let pairs = walk_flat_object(&text);
    let expected: Vec<(String, String)> =
        [("name", "mac01"), ("cores", "10"), ("ok", "true"), ("temp", "null"), ("power", "12.3")]
            .iter()
            .map(|(k, v)| (k.to_string(), v.to_string()))
            .collect();
    assert_eq!(pairs, expected);
    assert_eq!(ObjectWriter::new().finish(), "{}");
}

#[test]
fn malformed_objects_end_the_walk() {
    let keys = |json: &str| -> Vec<String> {
        walk_flat_object(json).into_iter().map(|(k, _)| k).collect()
    };
    assert!(keys("").is_empty());
    assert!(keys("[1,2]").is_empty());
    assert!(keys("{}").is_empty());
    assert_eq!(keys("{ \"a\" : 1 , \"b\" : 2 }"), vec!["a", "b"]);
    assert_eq!(keys("{\"a\":1,\"b"), vec!["a"]);
}
