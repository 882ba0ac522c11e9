use cashyyc::devcontainer::config::parse_config;
use cashyyc::session::{
    exec_session_args, lifecycle_plan, parse_printenv, session_remote_user, session_shell, Marker, Phase,
};

fn pairs(v: &[(&str, &str)]) -> Vec<(String, String)> {
    v.iter().map(|(a, b)| (a.to_string(), b.to_string())).collect()
}

#[test]
fn when_parse_printenv_then_each_line_is_split_at_its_first_equals() {
    assert_eq!(
        parse_printenv("HOME=/root\nA=b=c\r\nNOVALUE\n"),
        pairs(&[("HOME", "/root"), ("A", "b=c"), ("NOVALUE", "")])
    );
}

#[test]
fn when_parse_printenv_with_empty_output_then_returns_nothing() {
    assert!(parse_printenv("").is_empty());
}

#[test]
fn when_remote_user_is_configured_then_it_wins_over_the_container_user() {
    let config = parse_config(r#"{"image":"x","remoteUser":"${containerEnv:WHO}"}"#).unwrap();
    let env = pairs(&[("WHO", "vscode")]);
    assert_eq!(session_remote_user(&config, &env, Some("node"), "/p", &[]), Some("vscode".to_string()));
}

#[test]
fn when_no_remote_user_is_configured_then_the_container_user_is_used() {
    let config = parse_config(r#"{"image":"x"}"#).unwrap();
    assert_eq!(session_remote_user(&config, &[], Some("node"), "/p", &[]), Some("node".to_string()));
    assert_eq!(session_remote_user(&config, &[], None, "/p", &[]), None);
}

#[test]
fn when_session_shell_then_shell_env_then_passwd_then_sh() {
    assert_eq!(session_shell(Some("/bin/zsh\n"), None), "/bin/zsh");
    assert_eq!(session_shell(Some(" "), Some("u:x:1:1::/home/u:/bin/bash")), "/bin/bash");
    assert_eq!(session_shell(None, None), "/bin/sh");
}

#[test]
fn when_exec_session_args_then_env_is_sorted_and_expanded() {
    let config = parse_config(
        r#"{"image":"x","remoteEnv":{"B":"${containerEnv:PATH}:/x","A":"1","C":null}}"#,
    )
    .unwrap();
    let env = pairs(&[("PATH", "/bin")]);
    let args = exec_session_args(&config, "abc", Some("u"), &env, "/bin/sh", "/home/me/proj", &[]);
    assert_eq!(
        args,
        vec![
            "-it", "--user", "u", "--workdir", "/workspaces/proj", "--env", "A=1", "--env", "B=/bin:/x", "abc",
            "/bin/sh",
        ]
    );
}

#[test]
fn when_lifecycle_plan_for_a_new_container_then_every_stage_in_order() {
    let config = parse_config(
        r#"{"image":"x","postCreateCommand":"a","onCreateCommand":"b","postAttachCommand":"c","waitFor":"onCreateCommand"}"#,
    )
    .unwrap();
    let plan = lifecycle_plan(config.common(), &[], Phase::Create);
    let names: Vec<&str> = plan.iter().map(|s| s.name.as_str()).collect();
    assert_eq!(names, vec!["onCreateCommand", "postCreateCommand", "postAttachCommand"]);
    assert_eq!(plan[0].marker, Marker::OnceCreated);
    assert!(plan[0].wait);
    assert!(!plan[1].wait);
    assert_eq!(plan[2].marker, Marker::Always);
}

#[test]
fn when_lifecycle_plan_for_a_running_container_then_only_post_attach() {
    let config = parse_config(r#"{"image":"x","postStartCommand":"s","postAttachCommand":"c"}"#).unwrap();
    let plan = lifecycle_plan(config.common(), &[], Phase::Attach);
    assert_eq!(plan.len(), 1);
    assert_eq!(plan[0].name, "postAttachCommand");
    let restart = lifecycle_plan(config.common(), &[], Phase::Restart);
    assert_eq!(restart.len(), 2);
    assert_eq!(restart[0].marker, Marker::OnceStarted);
}
