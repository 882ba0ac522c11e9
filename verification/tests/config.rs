use cashyyc::devcontainer::config::{
    app_port, mounts, opt_string_or_vec, AppPort, BuildConfig, CommonConfig, DevcontainerConfig,
    DockerComposeConfig, DockerfileBuildConfig, DockerfileConfig, ImageConfig, METADATA_PROPERTIES,
};
use cashyyc::devcontainer::jsonc;
use cashyyc::devcontainer::jsonc::Value;
use cashyyc::devcontainer::metadata::Metadata;
use cashyyc::random_string::{generate_random_string, CharacterType};
fn urandom() -> Vec<u8> {
    let state = std::collections::hash_map::RandomState::new();
    let mut out = Vec::new();
    let mut i: u64 = 0;
    while out.len() < 64 {
        let mut h = std::hash::BuildHasher::build_hasher(&state);
        std::hash::Hasher::write_u64(&mut h, i);
        out.extend_from_slice(&std::hash::Hasher::finish(&h).to_le_bytes());
        i += 1;
    }
    out
}

fn value(json: &str) -> Value {
    jsonc::parse(json).unwrap().value()
}

#[test]
fn when_app_port_with_number_then_normalizes_to_loopback_mapping() {
    let result = app_port(&value(r#"{"appPort": 8080}"#)).unwrap();
    assert_eq!(result, vec![AppPort("127.0.0.1:8080:8080".to_string())]);
}

#[test]
fn when_app_port_with_string_then_uses_as_is() {
    let result = app_port(&value(r#"{"appPort": "8080:80"}"#)).unwrap();
    assert_eq!(result, vec![AppPort("8080:80".to_string())]);
}

#[test]
fn when_app_port_with_array_of_numbers_then_normalizes_each() {
    let result = app_port(&value(r#"{"appPort": [3000, 4000]}"#)).unwrap();
    assert_eq!(
        result,
        vec![
            AppPort("127.0.0.1:3000:3000".to_string()),
            AppPort("127.0.0.1:4000:4000".to_string()),
        ]
    );
}

#[test]
fn when_app_port_with_array_of_strings_then_uses_each_as_is() {
    let result = app_port(&value(r#"{"appPort": ["3000:3000", "4000:80"]}"#)).unwrap();
    assert_eq!(
        result,
        vec![
            AppPort("3000:3000".to_string()),
            AppPort("4000:80".to_string()),
        ]
    );
}

#[test]
fn when_app_port_with_null_then_returns_empty() {
    let result = app_port(&value(r#"{"appPort": null}"#)).unwrap();
    assert_eq!(result, vec![]);
}

#[test]
fn when_common_from_value_then_metadata_has_metadata_properties_as_written() {
    let (image, user, target) = (random_path(), random_path(), random_path());
    let command = format!("echo ${{localWorkspaceFolder}}{user}");
    let mount = format!(r#"{{"type":"volume","source":"cache","target":"{target}"}}"#);
    let common = CommonConfig::from_value(&value(&format!(
        r#"{{
            "image": "{image}",
            "name": "{user}",
            "appPort": 8080,
            "remoteUser": "{user}",
            "mounts": [{mount}],
            "postCreateCommand": "{command}"
        }}"#
    )))
    .unwrap();
    assert_eq!(
        common.metadata,
        Metadata::of(value(&format!(
            r#"{{"postCreateCommand":"{command}","mounts":[{mount}],"remoteUser":"{user}"}}"#
        )))
    );
}

#[test]
fn when_common_from_value_with_all_metadata_properties_then_metadata_has_all() {
    let text = random_path();
    let json = format!(
        r#"{{
            "onCreateCommand": "{text}",
            "updateContentCommand": "{text}",
            "postCreateCommand": "{text}",
            "postStartCommand": "{text}",
            "postAttachCommand": "{text}",
            "waitFor": "postCreateCommand",
            "customizations": {{}},
            "mounts": [],
            "containerEnv": {{}},
            "containerUser": "{text}",
            "init": true,
            "privileged": true,
            "capAdd": [],
            "securityOpt": [],
            "remoteUser": "{text}",
            "userEnvProbe": "none",
            "remoteEnv": {{}},
            "overrideCommand": true,
            "portsAttributes": {{}},
            "otherPortsAttributes": {{}},
            "forwardPorts": [],
            "shutdownAction": "none",
            "updateRemoteUserUID": true,
            "hostRequirements": {{}}
        }}"#
    );
    assert_eq!(
        value(&json).as_object().unwrap().len(),
        METADATA_PROPERTIES.len()
    );
    let common = CommonConfig::from_value(&value(&json)).unwrap();
    assert_eq!(common.metadata, Metadata::of(value(&json)));
}

#[test]
fn when_common_from_value_without_metadata_properties_then_metadata_is_empty() {
    let common =
        CommonConfig::from_value(&value(&format!(r#"{{"image": "{}"}}"#, random_path())))
            .unwrap();
    assert_eq!(common.metadata, Metadata::default());
}

fn random_path() -> String {
    let segment = generate_random_string(
        8,
        &[CharacterType::Lowercase, CharacterType::Numeric],
        "",
        &urandom(),
    );
    format!("/{segment}")
}

#[test]
fn when_mounts_with_string_then_returns_it_as_is() {
    let (source, target) = (random_path(), random_path());
    let mount = format!("type=bind,source={source},target={target}");
    let result = mounts(&value(&format!(r#"{{"mounts": ["{mount}"]}}"#))).unwrap();
    assert_eq!(result, vec![mount]);
}

#[test]
fn when_mounts_with_object_then_returns_type_src_dst() {
    let (source, target) = (random_path(), random_path());
    let result = mounts(&value(&format!(
        r#"{{"mounts": [{{"type": "bind", "source": "{source}", "target": "{target}"}}]}}"#
    )))
    .unwrap();
    assert_eq!(result, vec![format!("type=bind,src={source},dst={target}")]);
}

#[test]
fn when_mounts_with_object_without_source_then_returns_without_src() {
    let target = random_path();
    let result = mounts(&value(&format!(
        r#"{{"mounts": [{{"type": "volume", "target": "{target}"}}]}}"#
    )))
    .unwrap();
    assert_eq!(result, vec![format!("type=volume,dst={target}")]);
}

#[test]
fn when_mounts_with_object_with_empty_source_then_returns_without_src() {
    let target = random_path();
    let result = mounts(&value(&format!(
        r#"{{"mounts": [{{"type": "volume", "source": "", "target": "{target}"}}]}}"#
    )))
    .unwrap();
    assert_eq!(result, vec![format!("type=volume,dst={target}")]);
}

#[test]
fn when_mounts_with_object_without_target_then_returns_none() {
    let source = random_path();
    let result = mounts(&value(&format!(
        r#"{{"mounts": [{{"type": "bind", "source": "{source}"}}]}}"#
    )));
    assert_eq!(result, None);
}

#[test]
fn when_mounts_with_object_without_type_then_returns_none() {
    let (source, target) = (random_path(), random_path());
    let result = mounts(&value(&format!(
        r#"{{"mounts": [{{"source": "{source}", "target": "{target}"}}]}}"#
    )));
    assert_eq!(result, None);
}

#[test]
fn when_mounts_with_string_and_object_then_returns_both_in_order() {
    let (source, target) = (random_path(), random_path());
    let string_mount = format!("type=bind,source={source},target={target}");
    let result = mounts(&value(&format!(
        r#"{{"mounts": [{{"type": "volume", "target": "{target}"}}, "{string_mount}"]}}"#
    )))
    .unwrap();
    assert_eq!(
        result,
        vec![format!("type=volume,dst={target}"), string_mount]
    );
}

#[test]
fn when_mounts_without_key_then_returns_empty() {
    let result = mounts(&value("{}")).unwrap();
    assert_eq!(result, Vec::<String>::new());
}

#[test]
fn when_opt_string_or_vec_with_string_then_returns_some_single_element_vec() {
    let result = opt_string_or_vec(&value(r#"{"k": "hello"}"#), "k").unwrap();
    assert_eq!(result, Some(vec!["hello".to_string()]));
}

#[test]
fn when_opt_string_or_vec_with_array_then_returns_some_vec() {
    let result = opt_string_or_vec(&value(r#"{"k": ["hello", "world"]}"#), "k").unwrap();
    assert_eq!(result, Some(vec!["hello".to_string(), "world".to_string()]));
}

#[test]
fn when_opt_string_or_vec_with_null_then_returns_none() {
    let result = opt_string_or_vec(&value(r#"{"k": null}"#), "k").unwrap();
    assert_eq!(result, None);
}

fn empty_common() -> CommonConfig {
    CommonConfig {
        name: None,
        forward_ports: vec![],
        ports_attributes: None,
        other_ports_attributes: None,
        override_command: None,
        initialize_command: None,
        on_create_command: None,
        update_content_command: None,
        post_create_command: None,
        post_start_command: None,
        post_attach_command: None,
        wait_for: None,
        workspace_folder: None,
        mounts: vec![],
        container_env: Default::default(),
        container_user: None,
        init: None,
        privileged: None,
        cap_add: vec![],
        security_opt: vec![],
        remote_env: None,
        remote_user: None,
        update_remote_user_uid: None,
        user_env_probe: None,
        features: Default::default(),
        override_feature_install_order: vec![],
        host_requirements: None,
        customizations: Default::default(),
        metadata: Default::default(),
    }
}

fn empty_build() -> BuildConfig {
    BuildConfig {
        dockerfile: None,
        context: None,
        target: None,
        args: Default::default(),
        cache_from: None,
        options: None,
    }
}

#[test]
fn when_common_for_image_then_returns_image_common() {
    let config = DevcontainerConfig::Image(ImageConfig {
        image: "img".to_string(),
        app_port: vec![],
        run_args: vec![],
        workspace_mount: None,
        shutdown_action: None,
        common: CommonConfig {
            name: Some("my-image".to_string()),
            ..empty_common()
        },
    });
    assert_eq!(config.common().name, Some("my-image".to_string()));
}

#[test]
fn when_common_for_dockerfile_then_returns_dockerfile_common() {
    let config = DevcontainerConfig::Dockerfile(DockerfileConfig {
        docker_file: "Dockerfile".to_string(),
        context: None,
        build: None,
        app_port: vec![],
        run_args: vec![],
        workspace_mount: None,
        shutdown_action: None,
        common: CommonConfig {
            name: Some("my-dockerfile".to_string()),
            ..empty_common()
        },
    });
    assert_eq!(config.common().name, Some("my-dockerfile".to_string()));
}

#[test]
fn when_common_for_dockerfile_build_then_returns_dockerfile_build_common() {
    let config = DevcontainerConfig::DockerfileBuild(DockerfileBuildConfig {
        build: empty_build(),
        app_port: vec![],
        run_args: vec![],
        workspace_mount: None,
        shutdown_action: None,
        common: CommonConfig {
            name: Some("my-build".to_string()),
            ..empty_common()
        },
    });
    assert_eq!(config.common().name, Some("my-build".to_string()));
}

#[test]
fn when_common_for_compose_then_returns_compose_common() {
    let config = DevcontainerConfig::DockerCompose(DockerComposeConfig {
        docker_compose_file: vec!["docker-compose.yml".to_string()],
        service: "app".to_string(),
        workspace_folder: "/workspace".to_string(),
        run_services: vec![],
        shutdown_action: None,
        common: CommonConfig {
            name: Some("my-compose".to_string()),
            ..empty_common()
        },
    });
    assert_eq!(config.common().name, Some("my-compose".to_string()));
}

#[test]
fn when_workspace_folder_with_explicit_path_then_returns_it() {
    let config = DevcontainerConfig::Image(ImageConfig {
        image: "img".to_string(),
        app_port: vec![],
        run_args: vec![],
        workspace_mount: None,
        shutdown_action: None,
        common: CommonConfig {
            workspace_folder: Some("/workspace".to_string()),
            ..empty_common()
        },
    });
    assert_eq!(
        config.workspace_folder("/home/user/myproject", &[]),
        "/workspace"
    );
}

#[test]
fn when_workspace_folder_without_explicit_path_then_uses_cwd_basename() {
    let config = DevcontainerConfig::Image(ImageConfig {
        image: "img".to_string(),
        app_port: vec![],
        run_args: vec![],
        workspace_mount: None,
        shutdown_action: None,
        common: empty_common(),
    });
    assert_eq!(
        config.workspace_folder("/home/user/myproject", &[]),
        "/workspaces/myproject"
    );
}

#[test]
fn when_workspace_folder_for_dockerfile_variant_with_explicit_path_then_returns_it() {
    let config = DevcontainerConfig::Dockerfile(DockerfileConfig {
        docker_file: "Dockerfile".to_string(),
        context: None,
        build: None,
        app_port: vec![],
        run_args: vec![],
        workspace_mount: None,
        shutdown_action: None,
        common: CommonConfig {
            workspace_folder: Some("/workspace".to_string()),
            ..empty_common()
        },
    });
    assert_eq!(
        config.workspace_folder("/home/user/myproject", &[]),
        "/workspace"
    );
}

#[test]
fn when_workspace_folder_for_dockerfile_build_variant_with_explicit_path_then_returns_it() {
    let config = DevcontainerConfig::DockerfileBuild(DockerfileBuildConfig {
        build: empty_build(),
        app_port: vec![],
        run_args: vec![],
        workspace_mount: None,
        shutdown_action: None,
        common: CommonConfig {
            workspace_folder: Some("/workspace".to_string()),
            ..empty_common()
        },
    });
    assert_eq!(
        config.workspace_folder("/home/user/myproject", &[]),
        "/workspace"
    );
}

#[test]
fn when_workspace_folder_with_local_workspace_folder_basename_variable_then_expands_it() {
    let config = DevcontainerConfig::Image(ImageConfig {
        image: "img".to_string(),
        app_port: vec![],
        run_args: vec![],
        workspace_mount: None,
        shutdown_action: None,
        common: CommonConfig {
            workspace_folder: Some("/workspaces/${localWorkspaceFolderBasename}".to_string()),
            ..empty_common()
        },
    });
    assert_eq!(
        config.workspace_folder("/home/user/myproject", &[]),
        "/workspaces/myproject"
    );
}

#[test]
fn when_compose_workspace_folder_then_returns_compose_field() {
    let config = DevcontainerConfig::DockerCompose(DockerComposeConfig {
        docker_compose_file: vec!["docker-compose.yml".to_string()],
        service: "app".to_string(),
        workspace_folder: "/workspace".to_string(),
        run_services: vec![],
        shutdown_action: None,
        common: empty_common(),
    });
    assert_eq!(
        config.workspace_folder("/home/user/myproject", &[]),
        "/workspace"
    );
}
#[test]
fn when_with_common_with_an_image_config_then_returns_the_image_config_with_the_given_common() {
    let image = ImageConfig::from_value(&value(r#"{"image":"alpine"}"#)).unwrap();
    let replacement = CommonConfig::from_value(&value(r#"{"remoteUser":"vscode"}"#)).unwrap();
    assert_eq!(
        DevcontainerConfig::Image(image.clone()).with_common(replacement.clone()),
        DevcontainerConfig::Image(ImageConfig {
            common: replacement,
            ..image
        })
    );
}

#[test]
fn when_with_common_with_a_dockerfile_config_then_returns_the_dockerfile_config_with_the_given_common()
 {
    let dockerfile =
        DockerfileConfig::from_value(&value(r#"{"dockerFile":"Dockerfile"}"#)).unwrap();
    let replacement = CommonConfig::from_value(&value(r#"{"remoteUser":"vscode"}"#)).unwrap();
    assert_eq!(
        DevcontainerConfig::Dockerfile(dockerfile.clone()).with_common(replacement.clone()),
        DevcontainerConfig::Dockerfile(DockerfileConfig {
            common: replacement,
            ..dockerfile
        })
    );
}

#[test]
fn when_with_common_with_a_dockerfile_build_config_then_returns_the_dockerfile_build_config_with_the_given_common()
 {
    let build =
        DockerfileBuildConfig::from_value(&value(r#"{"build":{"dockerfile":"Dockerfile"}}"#))
            .unwrap();
    let replacement = CommonConfig::from_value(&value(r#"{"remoteUser":"vscode"}"#)).unwrap();
    assert_eq!(
        DevcontainerConfig::DockerfileBuild(build.clone()).with_common(replacement.clone()),
        DevcontainerConfig::DockerfileBuild(DockerfileBuildConfig {
            common: replacement,
            ..build
        })
    );
}

#[test]
fn when_with_common_with_a_compose_config_then_returns_the_compose_config_with_the_given_common()
 {
    let compose = DockerComposeConfig::from_value(&value(
        r#"{"dockerComposeFile":"compose.yml","service":"app","workspaceFolder":"/workspaces/app"}"#,
    ))
    .unwrap();
    let replacement = CommonConfig::from_value(&value(r#"{"remoteUser":"vscode"}"#)).unwrap();
    assert_eq!(
        DevcontainerConfig::DockerCompose(compose.clone()).with_common(replacement.clone()),
        DevcontainerConfig::DockerCompose(DockerComposeConfig {
            common: replacement,
            ..compose
        })
    );
}
