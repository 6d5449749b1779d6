use taskgraph::json::JsonValue;

fn text(s: &str) -> JsonValue {
    JsonValue::Text(s.to_string())
}

fn object(entries: Vec<(&str, JsonValue)>) -> JsonValue {
    JsonValue::Object(entries.into_iter().map(|(k, v)| (k.to_string(), v)).collect())
}

#[test]
fn null_gives_way() {
    assert_eq!(JsonValue::Null.merged_with(text("b")), text("b"));
    assert_eq!(JsonValue::Null.merged_with(JsonValue::Null), JsonValue::Null);
    assert_eq!(
        JsonValue::Null.merged_with(object(vec![("a", JsonValue::Bool(true))])),
        object(vec![("a", JsonValue::Bool(true))])
    );
}

#[test]
fn what_is_set_stays() {
    assert_eq!(text("a").merged_with(text("b")), text("a"));
    assert_eq!(JsonValue::Bool(false).merged_with(JsonValue::Bool(true)), JsonValue::Bool(false));
    assert_eq!(
        JsonValue::Number("1".to_string()).merged_with(object(vec![])),
        JsonValue::Number("1".to_string())
    );
    assert_eq!(
        object(vec![("a", text("x"))]).merged_with(text("b")),
        object(vec![("a", text("x"))])
    );
    assert_eq!(
        JsonValue::List(vec![text("a")]).merged_with(JsonValue::List(vec![text("b")])),
        JsonValue::List(vec![text("a")])
    );
}

#[test]
fn objects_merge_entry_by_entry() {
    let mine = object(vec![
        ("keep", text("mine")),
        ("empty", JsonValue::Null),
        ("nested", object(vec![("a", text("1"))])),
    ]);
    let theirs = object(vec![
        ("nested", object(vec![("a", text("2")), ("b", text("3"))])),
        ("keep", text("theirs")),
        ("empty", text("filled")),
        ("new", JsonValue::Bool(true)),
    ]);
    assert_eq!(
        mine.merged_with(theirs),
        object(vec![
            ("keep", text("mine")),
            ("empty", text("filled")),
            ("nested", object(vec![("a", text("1")), ("b", text("3"))])),
            ("new", JsonValue::Bool(true)),
        ])
    );
}

#[test]
fn merge_changes_in_place() {
    let mut value = object(vec![]);
    value.merge(object(vec![("a", text("x"))]));
    assert_eq!(value, object(vec![("a", text("x"))]));
}

#[test]
fn finds_entries_and_the_extended_file() {
    let value = object(vec![("extends", text("./base.json")), ("other", JsonValue::Null)]);
    assert_eq!(value.get("extends"), Some(&text("./base.json")));
    assert_eq!(value.get("missing"), None);
    assert_eq!(text("x").get("extends"), None);
    assert_eq!(value.extends_path(true), Some("./base.json".to_string()));
    assert_eq!(value.extends_path(false), None);
    assert_eq!(object(vec![("extends", JsonValue::Bool(true))]).extends_path(true), None);
    assert_eq!(object(vec![]).extends_path(true), None);
    assert_eq!(JsonValue::Null.extends_path(true), None);
}
