use cashyyc::devcontainer::config::{CommonConfig, DockerComposeConfig};
use cashyyc::devcontainer::docker_compose::{
    compose_args, ComposeResolved, FeatureBaseSource, ServiceResolved,
};
use cashyyc::devcontainer::jsonc;
use cashyyc::devcontainer::jsonc::access::StringMap;
use cashyyc::random_string::{generate_random_string, CharacterType};
fn urandom() -> Vec<u8> {
    let state = std::collections::hash_map::RandomState::new();
    let mut out = Vec::new();
    let mut i: u64 = 0;
    while out.len() < 64 {
        let mut h = std::hash::BuildHasher::build_hasher(&state);
        std::hash::Hasher::write_u64(&mut h, i);
        out.extend_from_slice(&std::hash::Hasher::finish(&h).to_le_bytes());
        i += 1;
    }
    out
}

fn lookup<'a, T>(pairs: &'a [(String, T)], key: &str) -> Option<&'a T> {
    pairs.iter().rev().find(|(k, _)| k == key).map(|(_, v)| v)
}

fn random_word() -> String {
    generate_random_string(
        8,
        &[CharacterType::Lowercase, CharacterType::Numeric],
        "",
        &urandom(),
    )
}

fn compose_config(service: &str) -> DockerComposeConfig {
    DockerComposeConfig {
        docker_compose_file: vec!["docker-compose.yml".to_string()],
        service: service.to_string(),
        workspace_folder: "/workspace".to_string(),
        run_services: vec![],
        shutdown_action: None,
        common: CommonConfig {
            name: None,
            forward_ports: vec![],
            ports_attributes: None,
            other_ports_attributes: None,
            override_command: None,
            initialize_command: None,
            on_create_command: None,
            update_content_command: None,
            post_create_command: None,
            post_start_command: None,
            post_attach_command: None,
            wait_for: None,
            workspace_folder: None,
            mounts: vec![],
            container_env: StringMap::new(),
            container_user: None,
            init: None,
            privileged: None,
            cap_add: vec![],
            security_opt: vec![],
            remote_env: None,
            remote_user: None,
            update_remote_user_uid: None,
            user_env_probe: None,
            features: vec![],
            override_feature_install_order: vec![],
            host_requirements: None,
            customizations: vec![],
            metadata: Default::default(),
        },
    }
}

#[test]
fn when_compose_args_with_named_config_and_parent_compose_file_then_project_name_is_workspace_name()
 {
    let cwd = "/home/user/myproject";
    let mut config = compose_config("app");
    config.docker_compose_file = vec!["../../docker-compose.yml".to_string()];
    let args = compose_args(&config, cwd, &format!("{cwd}/.devcontainer/server"));
    assert_eq!(args.project_name, "myproject");
}

#[test]
fn when_compose_args_with_devcontainer_dir_then_project_name_has_devcontainer_suffix() {
    let cwd = "/home/user/myproject";
    let args = compose_args(&compose_config("app"), cwd, &format!("{cwd}/.devcontainer"));
    assert_eq!(args.project_name, "myproject_devcontainer");
}

#[test]
fn when_compose_args_with_non_devcontainer_dir_then_project_name_is_dir_basename() {
    let cwd = "/home/user/myproject";
    let args = compose_args(
        &compose_config("app"),
        cwd,
        "/home/user/myproject/compose",
    );
    assert_eq!(args.project_name, "compose");
}

#[test]
fn when_compose_args_then_global_args_contain_project_name_flag() {
    let cwd = "/home/user/myproject";
    let args = compose_args(&compose_config("app"), cwd, &format!("{cwd}/.devcontainer"));
    let idx = args
        .global_args
        .iter()
        .position(|a| a == "--project-name")
        .unwrap();
    assert_eq!(args.global_args[idx + 1], "myproject_devcontainer");
}

#[test]
fn when_compose_args_then_global_args_contain_f_flag_with_absolute_path() {
    let cwd = "/home/user/myproject";
    let args = compose_args(&compose_config("app"), cwd, &format!("{cwd}/.devcontainer"));
    let idx = args.global_args.iter().position(|a| a == "-f").unwrap();
    assert_eq!(
        args.global_args[idx + 1],
        "/home/user/myproject/.devcontainer/docker-compose.yml"
    );
}

#[test]
fn when_compose_args_without_run_services_then_services_contains_service_only() {
    let cwd = "/home/user/myproject";
    let args = compose_args(&compose_config("app"), cwd, &format!("{cwd}/.devcontainer"));
    assert_eq!(args.services, vec!["app".to_string()]);
}

#[test]
fn when_compose_args_with_run_services_then_services_starts_with_run_services() {
    let cwd = "/home/user/myproject";
    let mut config = compose_config("app");
    config.run_services = vec!["db".to_string(), "cache".to_string()];
    let args = compose_args(&config, cwd, &format!("{cwd}/.devcontainer"));
    assert_eq!(
        args.services,
        vec!["db".to_string(), "cache".to_string(), "app".to_string()]
    );
}

#[test]
fn when_compose_args_with_run_services_including_service_then_no_duplicate() {
    let cwd = "/home/user/myproject";
    let mut config = compose_config("app");
    config.run_services = vec!["db".to_string(), "app".to_string()];
    let args = compose_args(&config, cwd, &format!("{cwd}/.devcontainer"));
    assert_eq!(args.services, vec!["db".to_string(), "app".to_string()]);
}

#[test]
fn when_compose_args_then_filters_contain_project_and_service_labels() {
    let cwd = "/home/user/myproject";
    let args = compose_args(&compose_config("app"), cwd, &format!("{cwd}/.devcontainer"));
    assert_eq!(
        args.filter1,
        "label=com.docker.compose.project=myproject_devcontainer"
    );
    assert_eq!(args.filter2, "label=com.docker.compose.service=app");
}

#[test]
fn when_compose_args_then_override_content_contains_keepalive_entrypoint() {
    let cwd = "/home/user/myproject";
    let args = compose_args(&compose_config("app"), cwd, &format!("{cwd}/.devcontainer"));
    assert!(args.override_content.contains("while sleep 1"));
    assert!(args.override_content.contains("$$@"));
}

#[test]
fn when_compose_args_with_container_user_then_override_content_contains_user() {
    let cwd = "/home/user/myproject";
    let mut config = compose_config("app");
    config.common.container_user = Some("vscode".to_string());
    let args = compose_args(&config, cwd, &format!("{cwd}/.devcontainer"));
    assert!(args.override_content.contains("user: vscode"));
}

#[test]
fn when_compose_args_with_init_then_override_content_contains_init() {
    let cwd = "/home/user/myproject";
    let mut config = compose_config("app");
    config.common.init = Some(true);
    let args = compose_args(&config, cwd, &format!("{cwd}/.devcontainer"));
    assert!(args.override_content.contains("\n    init: true"));
}

#[test]
fn when_compose_args_with_init_false_then_override_content_has_no_init() {
    let cwd = "/home/user/myproject";
    let mut config = compose_config("app");
    config.common.init = Some(false);
    let args = compose_args(&config, cwd, &format!("{cwd}/.devcontainer"));
    assert!(!args.override_content.contains("init:"));
}

#[test]
fn when_compose_args_with_privileged_then_override_content_contains_privileged() {
    let cwd = "/home/user/myproject";
    let mut config = compose_config("app");
    config.common.privileged = Some(true);
    let args = compose_args(&config, cwd, &format!("{cwd}/.devcontainer"));
    assert!(args.override_content.contains("\n    privileged: true"));
}

#[test]
fn when_compose_args_with_privileged_false_then_override_content_has_no_privileged() {
    let cwd = "/home/user/myproject";
    let mut config = compose_config("app");
    config.common.privileged = Some(false);
    let args = compose_args(&config, cwd, &format!("{cwd}/.devcontainer"));
    assert!(!args.override_content.contains("privileged:"));
}

#[test]
fn when_compose_args_with_cap_add_then_override_content_contains_cap_add() {
    let cwd = "/home/user/myproject";
    let mut config = compose_config("app");
    config.common.cap_add = vec!["SYS_PTRACE".to_string(), "NET_ADMIN".to_string()];
    let args = compose_args(&config, cwd, &format!("{cwd}/.devcontainer"));
    assert!(
        args.override_content
            .contains("\n    cap_add:\n      - SYS_PTRACE\n      - NET_ADMIN")
    );
}

#[test]
fn when_compose_args_without_cap_add_then_override_content_has_no_cap_add() {
    let cwd = "/home/user/myproject";
    let args = compose_args(&compose_config("app"), cwd, &format!("{cwd}/.devcontainer"));
    assert!(!args.override_content.contains("cap_add:"));
}

#[test]
fn when_compose_args_with_security_opt_then_override_content_contains_security_opt() {
    let cwd = "/home/user/myproject";
    let mut config = compose_config("app");
    config.common.security_opt = vec!["seccomp=unconfined".to_string()];
    let args = compose_args(&config, cwd, &format!("{cwd}/.devcontainer"));
    assert!(
        args.override_content
            .contains("\n    security_opt:\n      - seccomp=unconfined")
    );
}

#[test]
fn when_compose_args_without_security_opt_then_override_content_has_no_security_opt() {
    let cwd = "/home/user/myproject";
    let args = compose_args(&compose_config("app"), cwd, &format!("{cwd}/.devcontainer"));
    assert!(!args.override_content.contains("security_opt:"));
}

fn service_from(json: &str) -> Option<ServiceResolved> {
    ServiceResolved::from_value(&jsonc::parse(json).unwrap().value(), &random_word())
}

#[test]
fn when_service_resolved_image_then_feature_base_source_is_image() {
    let svc = service_from(r#"{"image":"ubuntu:22.04"}"#).unwrap();
    match svc.feature_base_source() {
        FeatureBaseSource::Image(s) => assert_eq!(s, "ubuntu:22.04"),
        FeatureBaseSource::DockerfilePath(_) => panic!("expected Image"),
    }
}

#[test]
fn when_service_resolved_build_then_feature_base_source_is_dockerfile_path() {
    let svc = service_from(r#"{"build":{"dockerfile":"Dockerfile.dev","context":"/abs/ctx"}}"#)
        .unwrap();
    match svc.feature_base_source() {
        FeatureBaseSource::DockerfilePath(p) => {
            assert_eq!(p, "/abs/ctx/Dockerfile.dev".to_string());
        }
        FeatureBaseSource::Image(_) => panic!("expected DockerfilePath"),
    }
}

#[test]
fn when_service_resolved_has_both_build_and_image_then_build_is_chosen() {
    let svc =
        service_from(r#"{"image":"ignored:1","build":{"dockerfile":"D","context":"/c"}}"#)
            .unwrap();
    assert!(matches!(
        svc.feature_base_source(),
        FeatureBaseSource::DockerfilePath(_)
    ));
}

#[test]
fn when_service_resolved_with_incomplete_build_and_image_then_image_is_chosen() {
    let svc = service_from(r#"{"image":"i:1","build":{"dockerfile":"D"}}"#).unwrap();
    assert!(matches!(
        svc.feature_base_source(),
        FeatureBaseSource::Image(_)
    ));
}

#[test]
fn when_compose_resolved_then_services_are_keyed_by_name() {
    let cfg =
        ComposeResolved::parse(r#"{"services":{"app":{"image":"a:1"},"db":{"image":"b:2"}}}"#)
            .unwrap();
    assert!(lookup(&cfg.services, "app").is_some());
    assert!(lookup(&cfg.services, "db").is_some());
}

#[test]
fn when_service_resolved_has_neither_then_from_value_fails() {
    assert!(service_from(r#"{}"#).is_none());
}

#[test]
fn when_compose_resolved_with_build_service_without_image_then_build_image_is_project_service()
{
    let (project, service) = (random_word(), random_word());
    let cfg = ComposeResolved::parse(&format!(
        r#"{{"name":"{project}","services":{{"{service}":{{"build":{{"dockerfile":"D","context":"/c"}}}}}}}}"#
    ))
    .unwrap();
    match lookup(&cfg.services, &service) {
        Some(ServiceResolved::Build { build }) => {
            assert_eq!(build.image, format!("{project}-{service}"));
        }
        _ => panic!("expected Build"),
    }
}

#[test]
fn when_compose_resolved_with_build_service_with_image_then_build_image_is_the_image() {
    let (project, service, image) = (random_word(), random_word(), random_word());
    let cfg = ComposeResolved::parse(&format!(
        r#"{{"name":"{project}","services":{{"{service}":{{"image":"{image}","build":{{"dockerfile":"D","context":"/c"}}}}}}}}"#
    ))
    .unwrap();
    match lookup(&cfg.services, &service) {
        Some(ServiceResolved::Build { build }) => assert_eq!(build.image, image),
        _ => panic!("expected Build"),
    }
}

