use cashyyc::devcontainer::config::{BuildConfig, CommonConfig, DockerfileConfig};
use cashyyc::devcontainer::docker_args::{
    container_build_args, container_run_options, container_start_args, normalize_dockerfile_config,
};
use cashyyc::devcontainer::jsonc::access::StringMap;
use cashyyc::devcontainer::metadata::Metadata;

#[test]
fn when_container_start_args_with_override_command_unset_then_returns_loop_script() {
    let args = container_start_args(None, &[], &[]);
    assert_eq!(args[0], "-c");
    assert!(args[1].contains("while sleep 1"));
    assert_eq!(args[2], "-");
}

#[test]
fn when_container_start_args_with_override_command_true_then_returns_loop_script() {
    let args = container_start_args(Some(true), &[], &[]);
    assert_eq!(args[0], "-c");
    assert!(args[1].contains("while sleep 1"));
    assert_eq!(args[2], "-");
}

#[test]
fn when_container_start_args_with_override_command_false_then_appends_image_entrypoint_and_cmd()
{
    let entrypoint = vec!["/entrypoint.sh".to_string()];
    let cmd = vec!["--flag".to_string()];
    let args = container_start_args(Some(false), &entrypoint, &cmd);
    assert_eq!(args[2], "-");
    assert_eq!(args[3], "/entrypoint.sh");
    assert_eq!(args[4], "--flag");
}

#[test]
fn when_container_start_args_with_override_command_true_then_does_not_append_image_cmd() {
    let entrypoint = vec!["/entrypoint.sh".to_string()];
    let cmd = vec!["--flag".to_string()];
    let args = container_start_args(Some(true), &entrypoint, &cmd);
    assert_eq!(args.len(), 3);
}

fn empty_build_config() -> BuildConfig {
    BuildConfig {
        dockerfile: None,
        context: None,
        target: None,
        args: None,
        cache_from: None,
        options: None,
    }
}

#[test]
fn when_container_build_args_then_includes_tag() {
    let build = empty_build_config();
    let args = container_build_args(&build, "/project/.devcontainer", "vsc-myapp");
    assert!(args.contains(&"vsc-myapp".to_string()));
}

#[test]
fn when_container_build_args_then_tag_follows_t_flag() {
    let build = empty_build_config();
    let args = container_build_args(&build, "/project/.devcontainer", "vsc-myapp");
    let t_idx = args.iter().position(|a| a == "-t").unwrap();
    assert_eq!(args[t_idx + 1], "vsc-myapp");
}

#[test]
fn when_container_build_args_with_dockerfile_then_resolves_against_devcontainer_dir() {
    let mut build = empty_build_config();
    build.dockerfile = Some("Dockerfile".to_string());
    let args = container_build_args(&build, "/project/.devcontainer", "vsc-myapp");
    let f_idx = args.iter().position(|a| a == "-f").unwrap();
    assert_eq!(args[f_idx + 1], "/project/.devcontainer/Dockerfile");
}

#[test]
fn when_container_build_args_with_no_dockerfile_then_defaults_to_dockerfile() {
    let build = empty_build_config();
    let args = container_build_args(&build, "/project/.devcontainer", "vsc-myapp");
    let f_idx = args.iter().position(|a| a == "-f").unwrap();
    assert_eq!(args[f_idx + 1], "/project/.devcontainer/Dockerfile");
}

#[test]
fn when_container_build_args_then_last_arg_is_context() {
    let mut build = empty_build_config();
    build.context = Some("..".to_string());
    let args = container_build_args(&build, "/project/.devcontainer", "vsc-myapp");
    assert_eq!(args.last().unwrap(), "/project/.devcontainer/..");
}

#[test]
fn when_container_build_args_with_target_then_includes_target() {
    let mut build = empty_build_config();
    build.target = Some("dev".to_string());
    let args = container_build_args(&build, "/project/.devcontainer", "vsc-myapp");
    let idx = args.iter().position(|a| a == "--target").unwrap();
    assert_eq!(args[idx + 1], "dev");
}

#[test]
fn when_container_build_args_with_build_args_then_includes_build_arg_flags() {
    let mut build = empty_build_config();
    let map = vec![("VERSION".to_string(), "1.0".to_string())];
    build.args = Some(map);
    let args = container_build_args(&build, "/project/.devcontainer", "vsc-myapp");
    let idx = args.iter().position(|a| a == "--build-arg").unwrap();
    assert_eq!(args[idx + 1], "VERSION=1.0");
}

#[test]
fn when_container_build_args_with_cache_from_then_includes_cache_from_flags() {
    let mut build = empty_build_config();
    build.cache_from = Some(vec!["myimage:latest".to_string()]);
    let args = container_build_args(&build, "/project/.devcontainer", "vsc-myapp");
    let idx = args.iter().position(|a| a == "--cache-from").unwrap();
    assert_eq!(args[idx + 1], "myimage:latest");
}

#[test]
fn when_container_build_args_with_options_then_includes_them() {
    let mut build = empty_build_config();
    build.options = Some(vec!["--no-cache".to_string()]);
    let args = container_build_args(&build, "/project/.devcontainer", "vsc-myapp");
    assert!(args.contains(&"--no-cache".to_string()));
}

fn empty_common() -> CommonConfig {
    CommonConfig {
        name: None,
        forward_ports: vec![],
        ports_attributes: None,
        other_ports_attributes: None,
        override_command: None,
        initialize_command: None,
        on_create_command: None,
        update_content_command: None,
        post_create_command: None,
        post_start_command: None,
        post_attach_command: None,
        wait_for: None,
        workspace_folder: None,
        mounts: vec![],
        container_env: StringMap::new(),
        container_user: None,
        init: None,
        privileged: None,
        cap_add: vec![],
        security_opt: vec![],
        remote_env: None,
        remote_user: None,
        update_remote_user_uid: None,
        user_env_probe: None,
        features: vec![],
        override_feature_install_order: vec![],
        host_requirements: None,
        customizations: vec![],
        metadata: Metadata::default(),
    }
}

fn empty_dockerfile_config(docker_file: &str) -> DockerfileConfig {
    DockerfileConfig {
        docker_file: docker_file.to_string(),
        context: None,
        build: None,
        app_port: vec![],
        run_args: vec![],
        workspace_mount: None,
        shutdown_action: None,
        common: empty_common(),
    }
}

#[test]
fn when_container_run_options_then_includes_detach_flag() {
    let args = container_run_options(&empty_common(), None, None, "/project");
    assert!(args.contains(&"-d".to_string()));
}

#[test]
fn when_container_run_options_then_includes_local_folder_label() {
    let args =
        container_run_options(&empty_common(), None, None, "/home/user/project");
    let label_idx = args.iter().position(|a| a == "--label").unwrap();
    assert_eq!(
        args[label_idx + 1],
        "devcontainer.local_folder=/home/user/project"
    );
}

#[test]
fn when_container_run_options_with_no_workspace_folder_then_uses_basename_as_default() {
    let args = container_run_options(&empty_common(), None,
        None,
        "/home/user/myproject");
    let w_idx = args.iter().position(|a| a == "-w").unwrap();
    assert_eq!(args[w_idx + 1], "/workspaces/myproject");
}

#[test]
fn when_container_run_options_with_workspace_folder_then_uses_it_as_workdir() {
    let mut common = empty_common();
    common.workspace_folder = Some("/workspace".to_string());
    let args = container_run_options(&common, None, None, "/home/user/project");
    let w_idx = args.iter().position(|a| a == "-w").unwrap();
    assert_eq!(args[w_idx + 1], "/workspace");
}

#[test]
fn when_container_run_options_with_no_workspace_mount_then_uses_bind_mount_to_workspace_folder()
{
    let args = container_run_options(&empty_common(), None,
        None,
        "/home/user/myproject");
    let mount_idx = args.iter().position(|a| a == "--mount").unwrap();
    assert_eq!(
        args[mount_idx + 1],
        "type=bind,source=/home/user/myproject,target=/workspaces/myproject"
    );
}

#[test]
fn when_container_run_options_with_workspace_mount_then_uses_it() {
    let custom_mount = "source=/custom,target=/workspace,type=bind";
    let args = container_run_options(&empty_common(), None,
        Some(custom_mount),
        "/project");
    let mount_idx = args.iter().position(|a| a == "--mount").unwrap();
    assert_eq!(args[mount_idx + 1], custom_mount);
}

#[test]
fn when_container_run_options_with_container_env_then_includes_env_flags() {
    let mut common = empty_common();
    let mut env = StringMap::new();
    env.insert("RUST_LOG".to_string(), "debug".to_string());
    common.container_env = env;
    let args = container_run_options(&common, None, None, "/project");
    let env_idx = args.iter().position(|a| a == "--env").unwrap();
    assert_eq!(args[env_idx + 1], "RUST_LOG=debug");
}

#[test]
fn when_container_run_options_with_container_user_then_includes_user_flag() {
    let mut common = empty_common();
    common.container_user = Some("vscode".to_string());
    let args = container_run_options(&common, None, None, "/project");
    let user_idx = args.iter().position(|a| a == "--user").unwrap();
    assert_eq!(args[user_idx + 1], "vscode");
}

#[test]
fn when_container_run_options_with_init_true_then_includes_init_flag() {
    let mut common = empty_common();
    common.init = Some(true);
    let args = container_run_options(&common, None, None, "/project");
    assert!(args.contains(&"--init".to_string()));
}

#[test]
fn when_container_run_options_with_init_false_then_excludes_init_flag() {
    let mut common = empty_common();
    common.init = Some(false);
    let args = container_run_options(&common, None, None, "/project");
    assert!(!args.contains(&"--init".to_string()));
}

#[test]
fn when_container_run_options_with_privileged_true_then_includes_privileged_flag() {
    let mut common = empty_common();
    common.privileged = Some(true);
    let args = container_run_options(&common, None, None, "/project");
    assert!(args.contains(&"--privileged".to_string()));
}

#[test]
fn when_container_run_options_with_cap_add_then_includes_cap_add_flags() {
    let mut common = empty_common();
    common.cap_add = vec!["SYS_PTRACE".to_string()];
    let args = container_run_options(&common, None, None, "/project");
    let cap_idx = args.iter().position(|a| a == "--cap-add").unwrap();
    assert_eq!(args[cap_idx + 1], "SYS_PTRACE");
}

#[test]
fn when_container_run_options_with_security_opt_then_includes_security_opt_flags() {
    let mut common = empty_common();
    common.security_opt = vec!["seccomp=unconfined".to_string()];
    let args = container_run_options(&common, None, None, "/project");
    let opt_idx = args.iter().position(|a| a == "--security-opt").unwrap();
    assert_eq!(args[opt_idx + 1], "seccomp=unconfined");
}

#[test]
fn when_container_run_options_with_run_args_then_includes_them() {
    let extra = vec!["--network=host".to_string()];
    let args =
        container_run_options(&empty_common(), Some(&extra), None, "/project");
    assert!(args.contains(&"--network=host".to_string()));
}

#[test]
fn when_normalize_dockerfile_config_with_only_docker_file_then_uses_it() {
    let config = empty_dockerfile_config("Dockerfile.dev");
    let result = normalize_dockerfile_config(&config);
    assert_eq!(result.dockerfile, Some("Dockerfile.dev".to_string()));
}

#[test]
fn when_normalize_dockerfile_config_with_top_level_context_then_uses_it() {
    let mut config = empty_dockerfile_config("Dockerfile");
    config.context = Some("..".to_string());
    let result = normalize_dockerfile_config(&config);
    assert_eq!(result.context, Some("..".to_string()));
}

#[test]
fn when_normalize_dockerfile_config_with_build_dockerfile_then_uses_build_dockerfile() {
    let mut config = empty_dockerfile_config("Dockerfile");
    let mut build = empty_build_config();
    build.dockerfile = Some("Dockerfile.prod".to_string());
    config.build = Some(build);
    let result = normalize_dockerfile_config(&config);
    assert_eq!(result.dockerfile, Some("Dockerfile.prod".to_string()));
}

#[test]
fn when_normalize_dockerfile_config_with_build_context_then_uses_build_context() {
    let mut config = empty_dockerfile_config("Dockerfile");
    config.context = Some("..".to_string());
    let mut build = empty_build_config();
    build.context = Some(".".to_string());
    config.build = Some(build);
    let result = normalize_dockerfile_config(&config);
    assert_eq!(result.context, Some(".".to_string()));
}

#[test]
fn when_normalize_dockerfile_config_with_build_but_no_build_dockerfile_then_falls_back_to_top_level()
 {
    let mut config = empty_dockerfile_config("Dockerfile.dev");
    config.build = Some(empty_build_config());
    let result = normalize_dockerfile_config(&config);
    assert_eq!(result.dockerfile, Some("Dockerfile.dev".to_string()));
}

#[test]
fn when_container_run_options_with_additional_mounts_then_includes_mount_flags() {
    let mut common = empty_common();
    common.mounts = vec!["source=/host/data,target=/container/data,type=bind".to_string()];
    let args = container_run_options(&common, None, None, "/project");
    let mount_idx = args.iter().rposition(|a| a == "--mount").unwrap();
    assert_eq!(
        args[mount_idx + 1],
        "source=/host/data,target=/container/data,type=bind"
    );
}


#[test]
fn when_container_run_options_with_empty_config_then_returns_exactly_the_workspace_options() {
    let args = container_run_options(&empty_common(), None, None, "/home/user/myproject");
    assert_eq!(
        args,
        vec![
            "-d".to_string(),
            "--label".to_string(),
            "devcontainer.local_folder=/home/user/myproject".to_string(),
            "--mount".to_string(),
            "type=bind,source=/home/user/myproject,target=/workspaces/myproject".to_string(),
            "-w".to_string(),
            "/workspaces/myproject".to_string(),
        ]
    );
}

#[test]
fn when_container_run_options_with_everything_then_flags_come_in_order() {
    let mut common = empty_common();
    common.mounts = vec!["m1".to_string()];
    let mut env = StringMap::new();
    env.insert("B".to_string(), "2".to_string());
    env.insert("A".to_string(), "1".to_string());
    common.container_env = env;
    common.container_user = Some("u".to_string());
    common.init = Some(true);
    common.privileged = Some(true);
    common.cap_add = vec!["C".to_string()];
    common.security_opt = vec!["S".to_string()];
    let extra = vec!["--x".to_string()];
    let args = container_run_options(&common, Some(&extra), Some("wm"), "/p");
    let expected: Vec<String> = [
        "-d", "--label", "devcontainer.local_folder=/p",
        "--mount", "wm", "-w", "/workspaces/p", "--mount", "m1", "--env", "A=1", "--env", "B=2",
        "--user", "u", "--init", "--privileged", "--cap-add", "C", "--security-opt", "S", "--x",
    ]
    .iter()
    .map(|s| s.to_string())
    .collect();
    assert_eq!(args, expected);
}

#[test]
fn when_normalize_dockerfile_config_with_build_then_keeps_its_other_settings() {
    let mut config = empty_dockerfile_config("Dockerfile");
    let mut build = empty_build_config();
    build.target = Some("dev".to_string());
    build.args = Some(vec![("A".to_string(), "1".to_string())]);
    build.cache_from = Some(vec!["img".to_string()]);
    build.options = Some(vec!["--pull".to_string()]);
    config.build = Some(build);
    let r = normalize_dockerfile_config(&config);
    assert_eq!(r.dockerfile, Some("Dockerfile".to_string()));
    assert_eq!(r.target, Some("dev".to_string()));
    assert_eq!(r.args, Some(vec![("A".to_string(), "1".to_string())]));
    assert_eq!(r.cache_from, Some(vec!["img".to_string()]));
    assert_eq!(r.options, Some(vec!["--pull".to_string()]));
}
