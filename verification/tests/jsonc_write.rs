use cashyyc::devcontainer::jsonc::edit::{build_node, InsertError};
use cashyyc::devcontainer::jsonc::model::Trivia;
use cashyyc::devcontainer::jsonc::{parse, Value};
use cashyyc::random_string::{generate_random_string, CharacterType};

fn num(x: f64) -> Value {
    parse(&format!("{}", x)).unwrap().value()
}

fn urandom() -> Vec<u8> {
    let state = std::collections::hash_map::RandomState::new();
    let mut out = Vec::new();
    let mut i: u64 = 0;
    while out.len() < 64 {
        let mut h = std::hash::BuildHasher::build_hasher(&state);
        std::hash::Hasher::write_u64(&mut h, i);
        out.extend_from_slice(&std::hash::Hasher::finish(&h).to_le_bytes());
        i += 1;
    }
    out
}

fn random_name() -> String {
    generate_random_string(8, &[CharacterType::Lowercase], "", &urandom())
}

#[test]
fn when_to_string_map_with_string_values_then_returns_map() {
    let name = random_name();
    let value = parse(&format!(r#"{{"k": "{}"}}"#, name)).unwrap().value();
    let map = value.to_string_map().unwrap();
    assert_eq!(map.get("k"), Some(&name));
}

#[test]
fn when_to_string_map_with_non_string_value_then_returns_none() {
    let value = parse(r#"{"k": 1}"#).unwrap().value();
    assert_eq!(value.to_string_map(), None);
}

#[test]
fn when_to_json_pretty_with_nested_object_then_formats_with_two_space_indent() {
    let value = parse(r#"{"a": [1, 2], "b": {"c": null}}"#).unwrap().value();
    assert_eq!(
        value.to_json_pretty(),
        "{\n  \"a\": [\n    1,\n    2\n  ],\n  \"b\": {\n    \"c\": null\n  }\n}"
    );
}

#[test]
fn when_to_json_pretty_with_empty_containers_then_formats_inline() {
    let value = parse(r#"{"a": [], "b": {}}"#).unwrap().value();
    assert_eq!(value.to_json_pretty(), "{\n  \"a\": [],\n  \"b\": {}\n}");
}

#[test]
fn when_to_json_pretty_with_integer_number_then_omits_fraction() {
    assert_eq!(num(42.0).to_json_pretty(), "42");
}

#[test]
fn when_to_json_pretty_with_float_number_then_keeps_fraction() {
    assert_eq!(num(1.5).to_json_pretty(), "1.5");
}

#[test]
fn when_to_json_pretty_with_special_characters_then_escapes_them() {
    assert_eq!(
        Value::String("a\"b\\c\nd\re\tf\u{0008}g\u{000C}h".to_string()).to_json_pretty(),
        r#""a\"b\\c\nd\re\tf\bg\fh""#
    );
}

#[test]
fn when_to_json_pretty_then_roundtrips_through_parse() {
    let name = random_name();
    let input = format!(r#"{{"key": "{}", "list": [true, false, null, 1.5]}}"#, name);
    let value = parse(&input).unwrap().value();
    assert_eq!(
        parse(&value.to_json_pretty()).map(|document| document.value()),
        Ok(value)
    );
}

#[test]
fn when_display_with_nested_structure_then_returns_compact_json() {
    let value = parse(r#"{"a": [1, "x", false], "b": {"c": null}, "d": []}"#)
        .unwrap()
        .value();
    assert_eq!(
        value.to_json_compact(),
        r#"{"a":[1,"x",false],"b":{"c":null},"d":[]}"#
    );
}

#[test]
fn when_display_with_number_then_returns_bare_number() {
    assert_eq!(num(20.0).to_json_compact(), "20");
}

#[test]
fn when_display_with_bool_then_returns_bare_bool() {
    assert_eq!(Value::Bool(true).to_json_compact(), "true");
}

#[test]
fn when_to_json_pretty_then_preserves_member_order() {
    let value = parse(r#"{"b": 1, "a": 2}"#).unwrap().value();
    let out = value.to_json_pretty();
    assert!(out.find("\"b\"").unwrap() < out.find("\"a\"").unwrap());
}

#[test]
fn when_insert_with_existing_object_then_keeps_the_comments_and_the_tab_indent() {
    let mut document =
        parse("// header\n{\n\t// note\n\t\"features\": {\n\t\t\"java\": {}\n\t}\n}\n")
            .unwrap();
    let result = document.insert(&["features", "git"], &Value::Object(vec![]));
    assert_eq!(result, Ok(()));
    assert_eq!(
        document.to_text(),
        "// header\n{\n\t// note\n\t\"features\": {\n\t\t\"java\": {},\n\t\t\"git\": {}\n\t}\n}\n"
    );
}

#[test]
fn when_insert_with_trailing_comment_then_leaves_the_comment_on_its_line() {
    let mut document = parse("{\n\t\"image\": \"golang\" // note\n}\n").unwrap();
    let result = document.insert(&["features", "git"], &Value::Object(vec![]));
    assert_eq!(result, Ok(()));
    assert_eq!(
        document.to_text(),
        "{\n\t\"image\": \"golang\", // note\n\t\"features\": {\n\t\t\"git\": {}\n\t}\n}\n"
    );
}

#[test]
fn when_insert_with_missing_key_then_returns_the_created_object() {
    let mut document = parse("{\n  \"name\": \"go\"\n}\n").unwrap();
    let result = document.insert(&["features", "git"], &Value::Object(vec![]));
    assert_eq!(result, Ok(()));
    assert_eq!(
        document.to_text(),
        "{\n  \"name\": \"go\",\n  \"features\": {\n    \"git\": {}\n  }\n}\n"
    );
}

#[test]
fn when_insert_with_empty_object_then_indents_the_member() {
    let mut document = parse("{\n  \"features\": {}\n}\n").unwrap();
    let result = document.insert(&["features", "git"], &Value::Object(vec![]));
    assert_eq!(result, Ok(()));
    assert_eq!(
        document.to_text(),
        "{\n  \"features\": {\n    \"git\": {}\n  }\n}\n"
    );
}

#[test]
fn when_insert_with_single_line_document_then_stays_on_one_line() {
    let mut document = parse(r#"{"image": "golang"}"#).unwrap();
    let result = document.insert(&["features", "git"], &Value::Object(vec![]));
    assert_eq!(result, Ok(()));
    assert_eq!(
        document.to_text(),
        r#"{"image": "golang", "features": {"git": {}}}"#
    );
}

#[test]
fn when_insert_with_trailing_comma_then_does_not_add_another_comma() {
    let mut document = parse("{\n  \"image\": \"golang\",\n}\n").unwrap();
    let result = document.insert(&["features", "git"], &Value::Object(vec![]));
    assert_eq!(result, Ok(()));
    assert_eq!(
        document.to_text(),
        "{\n  \"image\": \"golang\",\n  \"features\": {\n    \"git\": {}\n  }\n}\n"
    );
}

#[test]
fn when_insert_with_existing_key_then_replaces_the_value() {
    let mut document =
        parse("{\n  \"features\": {\n    \"git\": {\"version\": \"1\"}\n  }\n}\n").unwrap();
    let result = document.insert(&["features", "git"], &Value::Object(vec![]));
    assert_eq!(result, Ok(()));
    assert_eq!(
        document.to_text(),
        "{\n  \"features\": {\n    \"git\": {}\n  }\n}\n"
    );
}

#[test]
fn when_insert_with_non_object_on_the_path_then_returns_not_an_object() {
    let mut document = parse(r#"{"features": 1}"#).unwrap();
    assert_eq!(
        document.insert(&["features", "git"], &Value::Object(vec![])),
        Err(InsertError::NotAnObject("features".to_string()))
    );
}

#[test]
fn when_insert_with_non_object_root_then_returns_root_not_object() {
    let mut document = parse("[]").unwrap();
    assert_eq!(
        document.insert(&["features"], &Value::Object(vec![])),
        Err(InsertError::RootNotObject)
    );
}

#[test]
fn when_insert_with_empty_path_then_returns_empty_path() {
    let mut document = parse("{}").unwrap();
    assert_eq!(
        document.insert(&[], &Value::Object(vec![])),
        Err(InsertError::EmptyPath)
    );
}

#[test]
fn when_build_node_with_a_path_after_a_line_break_then_each_level_is_indented_one_step_more() {
    let leading = Trivia { prefix: vec!['\n'], indent: vec![' ', ' '] };
    let unit = vec![' ', ' '];
    let node = build_node(&["a", "b"], &Value::Object(vec![]), &leading, &unit);
    let mut out: Vec<char> = Vec::new();
    node.write(&mut out);
    let text: String = out.into_iter().collect();
    assert_eq!(text, "{\n    \"a\": {\n      \"b\": {}\n    }\n  }");
    assert_eq!(
        parse(&text).unwrap().value(),
        Value::Object(vec![("a".to_string(), Value::Object(vec![("b".to_string(), Value::Object(vec![]))]))])
    );
}

#[test]
fn when_insert_into_a_multiline_object_then_the_new_member_gets_its_own_line() {
    let mut d = parse("{\n  \"name\": \"go\"\n}\n").unwrap();
    d.insert(&["features", "git"], &Value::Object(vec![])).unwrap();
    assert_eq!(d.to_text(), "{\n  \"name\": \"go\",\n  \"features\": {\n    \"git\": {}\n  }\n}\n");
}

#[test]
fn when_a_written_string_is_parsed_then_it_reads_back_unchanged() {
    let text = "quote \" backslash \\ newline \n tab \t bell \u{7} escape \u{1b} unicode é 😀 slash /";
    let written = Value::String(text.to_string()).to_json_compact();
    assert_eq!(
        written,
        "\"quote \\\" backslash \\\\ newline \\n tab \\t bell \\u0007 escape \\u001b unicode é 😀 slash /\""
    );
    let doc = parse(&written).unwrap();
    assert_eq!(doc.value(), Value::String(text.to_string()));
}
