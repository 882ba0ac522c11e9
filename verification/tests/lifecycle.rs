use cashyyc::devcontainer::jsonc::{parse, Value};
use cashyyc::lifecycle::{expand_lifecycle_cmd, LifecycleCmd};

fn json(text: &str) -> Value {
    parse(text).unwrap().value()
}

#[test]
fn when_string_value_then_becomes_shell() {
    assert_eq!(
        LifecycleCmd::try_from(&json(r#""npm install""#)).unwrap(),
        LifecycleCmd::Shell("npm install".to_string())
    );
}

#[test]
fn when_array_value_then_becomes_exec() {
    assert_eq!(
        LifecycleCmd::try_from(&json(r#"["npm", "install"]"#)).unwrap(),
        LifecycleCmd::Exec(vec!["npm".to_string(), "install".to_string()])
    );
}

#[test]
fn when_object_value_then_becomes_parallel_of_shell() {
    assert_eq!(
        LifecycleCmd::try_from(&json(r#"{"install": "npm install", "build": "npm run build"}"#))
            .unwrap(),
        LifecycleCmd::Parallel(vec![
            LifecycleCmd::Shell("npm run build".to_string()),
            LifecycleCmd::Shell("npm install".to_string()),
        ])
    );
}

#[test]
fn when_object_with_array_value_then_becomes_parallel_of_exec() {
    assert_eq!(
        LifecycleCmd::try_from(&json(r#"{"run": ["npm", "install"]}"#)).unwrap(),
        LifecycleCmd::Parallel(vec![LifecycleCmd::Exec(vec![
            "npm".to_string(),
            "install".to_string(),
        ])])
    );
}

#[test]
fn when_array_with_non_string_elements_then_non_strings_are_skipped() {
    assert_eq!(
        LifecycleCmd::try_from(&json(r#"["npm", 1, "install"]"#)).unwrap(),
        LifecycleCmd::Exec(vec!["npm".to_string(), "install".to_string()])
    );
}

#[test]
fn when_object_with_invalid_sub_value_then_it_is_excluded_from_parallel() {
    assert_eq!(
        LifecycleCmd::try_from(&json(r#"{"valid": "echo hi", "invalid": null}"#)).unwrap(),
        LifecycleCmd::Parallel(vec![LifecycleCmd::Shell("echo hi".to_string())])
    );
}

#[test]
fn when_null_value_then_returns_err() {
    assert!(LifecycleCmd::try_from(&json("null")).is_err());
}

#[test]
fn when_object_repeats_a_name_then_its_last_value_is_used_once() {
    assert_eq!(
        LifecycleCmd::try_from(&json(r#"{"a": "one", "b": "two", "a": "three"}"#)).unwrap(),
        LifecycleCmd::Parallel(vec![
            LifecycleCmd::Shell("three".to_string()),
            LifecycleCmd::Shell("two".to_string()),
        ])
    );
}

#[test]
fn when_nested_object_then_inner_commands_are_parallel_too() {
    assert_eq!(
        LifecycleCmd::try_from(&json(r#"{"z": {"y": "b", "x": ["a"]}, "n": 3}"#)).unwrap(),
        LifecycleCmd::Parallel(vec![LifecycleCmd::Parallel(vec![
            LifecycleCmd::Exec(vec!["a".to_string()]),
            LifecycleCmd::Shell("b".to_string()),
        ])])
    );
}

#[test]
fn when_bool_value_then_returns_err() {
    assert!(LifecycleCmd::try_from(&json("true")).is_err());
}

#[test]
fn when_expand_lifecycle_cmd_then_every_text_is_expanded() {
    let cmd = LifecycleCmd::Parallel(vec![
        LifecycleCmd::Shell("cd ${localWorkspaceFolder}".to_string()),
        LifecycleCmd::Exec(vec!["ls".to_string(), "${containerWorkspaceFolder}".to_string()]),
    ]);
    let r = expand_lifecycle_cmd(&cmd, "/home/u/p", "/workspaces/p", &[], &[]);
    assert_eq!(
        r,
        LifecycleCmd::Parallel(vec![
            LifecycleCmd::Shell("cd /home/u/p".to_string()),
            LifecycleCmd::Exec(vec!["ls".to_string(), "/workspaces/p".to_string()]),
        ])
    );
}
