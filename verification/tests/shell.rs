use cashyyc::devcontainer::shell::parse_shell_from_passwd;

#[test]
fn when_parse_shell_from_passwd_with_shell_then_returns_some() {
    assert_eq!(
        parse_shell_from_passwd("vscode:x:1000:1000::/home/vscode:/bin/bash"),
        Some("/bin/bash".to_string())
    );
}

#[test]
fn when_parse_shell_from_passwd_with_empty_string_then_returns_none() {
    assert_eq!(parse_shell_from_passwd(""), None);
}

#[test]
fn when_parse_shell_from_passwd_with_insufficient_fields_then_returns_none() {
    assert_eq!(parse_shell_from_passwd("vscode:x:1000:1000"), None);
}

#[test]
fn when_parse_shell_from_passwd_with_empty_shell_field_then_returns_none() {
    assert_eq!(parse_shell_from_passwd("vscode:x:1000:1000:::"), None);
}
