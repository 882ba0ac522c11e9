use cashyyc::devcontainer::config::{
    BuildConfig, CommonConfig, DevcontainerConfig, DockerfileBuildConfig, DockerfileConfig, ImageConfig,
};
use cashyyc::devcontainer::jsonc::access::StringMap;
use cashyyc::devcontainer::metadata::Metadata;
use cashyyc::docker::image_tag;
use cashyyc::setup::{from_config, from_dockerfile, from_dockerfile_build, from_image, ContainerTarget};

fn empty_common() -> CommonConfig {
    CommonConfig {
        name: None,
        forward_ports: vec![],
        ports_attributes: None,
        other_ports_attributes: None,
        override_command: None,
        initialize_command: None,
        on_create_command: None,
        update_content_command: None,
        post_create_command: None,
        post_start_command: None,
        post_attach_command: None,
        wait_for: None,
        workspace_folder: None,
        mounts: vec![],
        container_env: StringMap::new(),
        container_user: None,
        init: None,
        privileged: None,
        cap_add: vec![],
        security_opt: vec![],
        remote_env: None,
        remote_user: None,
        update_remote_user_uid: None,
        user_env_probe: None,
        features: vec![],
        override_feature_install_order: vec![],
        host_requirements: None,
        customizations: vec![],
        metadata: Metadata::default(),
    }
}

fn empty_image_config(image: &str) -> ImageConfig {
    ImageConfig {
        image: image.to_string(),
        app_port: vec![],
        run_args: vec![],
        workspace_mount: None,
        shutdown_action: None,
        common: empty_common(),
    }
}

fn empty_dockerfile_config() -> DockerfileConfig {
    DockerfileConfig {
        docker_file: "Dockerfile".to_string(),
        context: None,
        build: None,
        app_port: vec![],
        run_args: vec![],
        workspace_mount: None,
        shutdown_action: None,
        common: empty_common(),
    }
}

fn empty_dockerfile_build_config() -> DockerfileBuildConfig {
    DockerfileBuildConfig {
        build: BuildConfig {
            dockerfile: None,
            context: None,
            target: None,
            args: Some(vec![]),
            cache_from: None,
            options: Some(vec![]),
        },
        app_port: vec![],
        run_args: vec![],
        workspace_mount: None,
        shutdown_action: None,
        common: empty_common(),
    }
}

#[test]
fn when_from_image_then_base_image_is_image_field() {
    let c = empty_image_config("ubuntu:22.04");
    let setup = from_image(
        &c,
        "/project",
        "/project/.devcontainer/devcontainer.json", &[]);
    assert_eq!(setup.base_image, "ubuntu:22.04");
}

#[test]
fn when_from_dockerfile_then_base_image_is_image_tag() {
    let c = empty_dockerfile_config();
    let cwd = "/home/user/myproject";
    let setup = from_dockerfile(
        &c,
        cwd,
        "/home/user/myproject/.devcontainer/devcontainer.json", &[]);
    assert_eq!(setup.base_image, image_tag(cwd));
}

#[test]
fn when_from_dockerfile_build_then_base_image_is_image_tag() {
    let c = empty_dockerfile_build_config();
    let cwd = "/home/user/myproject";
    let setup = from_dockerfile_build(
        &c,
        cwd,
        "/home/user/myproject/.devcontainer/devcontainer.json", &[]);
    assert_eq!(setup.base_image, image_tag(cwd));
}

#[test]
fn when_from_image_then_run_args_include_detach_flag() {
    let c = empty_image_config("ubuntu:22.04");
    let setup = from_image(
        &c,
        "/project",
        "/project/.devcontainer/devcontainer.json", &[]);
    assert!(setup.run_args.contains(&"-d".to_string()));
}

#[test]
fn when_from_image_with_workspace_mount_then_run_args_expand_variables() {
    let mut c = empty_image_config("ubuntu:22.04");
    c.workspace_mount =
        Some("type=bind,source=${localWorkspaceFolder},target=/workspace".to_string());
    let cwd = "/home/user/myproject";
    let setup = from_image(
        &c,
        cwd,
        "/home/user/myproject/.devcontainer/devcontainer.json", &[]);
    let mount_idx = setup.run_args.iter().position(|a| a == "--mount").unwrap();
    assert_eq!(
        setup.run_args[mount_idx + 1],
        "type=bind,source=/home/user/myproject,target=/workspace"
    );
}

#[test]
fn when_from_config_with_image_then_returns_single() {
    let c = empty_image_config("ubuntu:22.04");
    let target = from_config(
        &DevcontainerConfig::Image(c),
        "/project",
        "/project/.devcontainer/devcontainer.json",
        "/project/.devcontainer", &[]);
    assert!(matches!(target, ContainerTarget::Single(_)));
}

#[test]
fn when_from_config_with_dockerfile_then_returns_single() {
    let target = from_config(
        &DevcontainerConfig::Dockerfile(empty_dockerfile_config()),
        "/project",
        "/project/.devcontainer/devcontainer.json",
        "/project/.devcontainer",
        &[],
    );
    assert!(matches!(target, ContainerTarget::Single(_)));
}

#[test]
fn when_from_config_with_dockerfile_build_then_returns_single() {
    let target = from_config(
        &DevcontainerConfig::DockerfileBuild(empty_dockerfile_build_config()),
        "/project",
        "/project/.devcontainer/devcontainer.json",
        "/project/.devcontainer",
        &[],
    );
    assert!(matches!(target, ContainerTarget::Single(_)));
}

#[test]
fn when_from_image_then_override_command_passes_through() {
    let mut c = empty_image_config("ubuntu:22.04");
    c.common.override_command = Some(false);
    let setup = from_image(
        &c,
        "/project",
        "/project/.devcontainer/devcontainer.json", &[]);
    assert_eq!(setup.override_command, Some(false));
}


#[test]
fn when_from_image_with_local_env_in_workspace_mount_then_it_is_expanded() {
    let mut c = empty_image_config("ubuntu:22.04");
    c.workspace_mount = Some("type=bind,source=${localEnv:SRC},target=/w".to_string());
    let env = vec![("SRC".to_string(), "/data".to_string())];
    let setup = from_image(&c, "/p", "/p/.devcontainer/devcontainer.json", &env);
    let mount_idx = setup.run_args.iter().position(|a| a == "--mount").unwrap();
    assert_eq!(setup.run_args[mount_idx + 1], "type=bind,source=/data,target=/w");
}
