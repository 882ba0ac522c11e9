use cashyyc::cli::parser::{parse_args, Command};
use cashyyc::random_string::{generate_random_string, CharacterType};

fn urandom() -> Vec<u8> {
    let state = std::collections::hash_map::RandomState::new();
    let mut out = Vec::new();
    let mut i: u64 = 0;
    while out.len() < 64 {
        let mut h = std::hash::BuildHasher::build_hasher(&state);
        std::hash::Hasher::write_u64(&mut h, i);
        out.extend_from_slice(&std::hash::Hasher::finish(&h).to_le_bytes());
        i += 1;
    }
    out
}

#[test]
fn when_parse_args_with_shell_command_then_returns_shell_with_none() {
    let args = vec!["cyyc".to_string(), "shell".to_string()];
    assert_eq!(parse_args(&args), Command::Shell { name: None });
}

#[test]
fn when_parse_args_with_shell_and_environment_name_then_returns_shell_with_name() {
    let name = generate_random_string(
        8,
        &[
            CharacterType::Lowercase,
            CharacterType::Uppercase,
            CharacterType::Numeric,
        ],
        "",
        &urandom(),
    );
    let args = vec!["cyyc".to_string(), "shell".to_string(), name.clone()];
    assert_eq!(parse_args(&args), Command::Shell { name: Some(name) });
}

#[test]
fn when_parse_args_with_unknown_command_then_returns_unknown() {
    let cmd = generate_random_string(
        8,
        &[
            CharacterType::Lowercase,
            CharacterType::Uppercase,
            CharacterType::Numeric,
        ],
        "",
        &urandom(),
    );
    let args = vec!["cyyc".to_string(), cmd.clone()];
    assert_eq!(parse_args(&args), Command::Unknown(cmd));
}

#[test]
fn when_parse_args_with_unknown_command_and_extra_arg_then_returns_unknown() {
    let cmd = generate_random_string(
        8,
        &[
            CharacterType::Lowercase,
            CharacterType::Uppercase,
            CharacterType::Numeric,
        ],
        "",
        &urandom(),
    );
    let extra = generate_random_string(
        8,
        &[
            CharacterType::Lowercase,
            CharacterType::Uppercase,
            CharacterType::Numeric,
        ],
        "",
        &urandom(),
    );
    let args = vec!["cyyc".to_string(), cmd.clone(), extra];
    assert_eq!(parse_args(&args), Command::Unknown(cmd));
}

#[test]
fn when_parse_args_with_program_name_only_then_returns_unknown() {
    let args = vec!["cyyc".to_string()];
    assert_eq!(
        parse_args(&args),
        Command::Unknown("no command".to_string())
    );
}

#[test]
fn when_parse_args_with_help_command_then_returns_help() {
    let args = vec!["cyyc".to_string(), "help".to_string()];
    assert_eq!(parse_args(&args), Command::Help);
}

#[test]
fn when_parse_args_with_help_flag_then_returns_help() {
    let args = vec!["cyyc".to_string(), "--help".to_string()];
    assert_eq!(parse_args(&args), Command::Help);
}

#[test]
fn when_parse_args_with_short_help_flag_then_returns_help() {
    let args = vec!["cyyc".to_string(), "-h".to_string()];
    assert_eq!(parse_args(&args), Command::Help);
}

#[test]
fn when_parse_args_with_help_command_and_extra_arg_then_returns_help() {
    let args = vec!["cyyc".to_string(), "help".to_string(), "extra".to_string()];
    assert_eq!(parse_args(&args), Command::Help);
}

#[test]
fn when_parse_args_with_version_command_then_returns_version() {
    let args = vec!["cyyc".to_string(), "version".to_string()];
    assert_eq!(parse_args(&args), Command::Version);
}

#[test]
fn when_parse_args_with_version_flag_then_returns_version() {
    let args = vec!["cyyc".to_string(), "--version".to_string()];
    assert_eq!(parse_args(&args), Command::Version);
}

#[test]
fn when_parse_args_with_short_version_flag_then_returns_version() {
    let args = vec!["cyyc".to_string(), "-V".to_string()];
    assert_eq!(parse_args(&args), Command::Version);
}

#[test]
fn when_parse_args_with_version_command_and_extra_arg_then_returns_version() {
    let args = vec![
        "cyyc".to_string(),
        "version".to_string(),
        "extra".to_string(),
    ];
    assert_eq!(parse_args(&args), Command::Version);
}

#[test]
fn when_parse_args_with_stop_then_returns_stop_with_none() {
    let args = vec!["cyyc".to_string(), "stop".to_string()];
    assert_eq!(parse_args(&args), Command::Stop { name: None });
}

#[test]
fn when_parse_args_with_stop_and_name_then_returns_stop_with_name() {
    let args = vec!["cyyc".to_string(), "stop".to_string(), "python".to_string()];
    assert_eq!(parse_args(&args), Command::Stop { name: Some("python".to_string()) });
}

#[test]
fn when_parse_args_with_down_and_ps_then_returns_them() {
    let down = vec!["cyyc".to_string(), "down".to_string()];
    assert_eq!(parse_args(&down), Command::Down { name: None });
    let ps = vec!["cyyc".to_string(), "ps".to_string(), "x".to_string()];
    assert_eq!(parse_args(&ps), Command::Ps { name: Some("x".to_string()) });
}
