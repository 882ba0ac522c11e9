use cashyyc::devcontainer::config::{CommonConfig, UserEnvProbe, WaitFor};
use cashyyc::devcontainer::jsonc;
use cashyyc::devcontainer::jsonc::Value;
use cashyyc::devcontainer::metadata::{mount_target, Metadata, LABEL};
use cashyyc::random_string::{generate_random_string, CharacterType};
fn urandom() -> Vec<u8> {
    let state = std::collections::hash_map::RandomState::new();
    let mut out = Vec::new();
    let mut i: u64 = 0;
    while out.len() < 64 {
        let mut h = std::hash::BuildHasher::build_hasher(&state);
        std::hash::Hasher::write_u64(&mut h, i);
        out.extend_from_slice(&std::hash::Hasher::finish(&h).to_le_bytes());
        i += 1;
    }
    out
}

fn lookup<'a, T>(pairs: &'a [(String, T)], key: &str) -> Option<&'a T> {
    pairs.iter().rev().find(|(k, _)| k == key).map(|(_, v)| v)
}

fn random_word() -> String {
    generate_random_string(
        8,
        &[CharacterType::Lowercase, CharacterType::Numeric],
        "",
        &urandom(),
    )
}

#[test]
fn when_from_array_then_returns_its_entries_in_order() {
    let (feature, user) = (random_word(), random_word());
    let value = jsonc::parse(&format!(
        r#"[{{"id":"{feature}"}},{{"remoteUser":"{user}"}}]"#
    ))
    .unwrap()
    .value();
    assert_eq!(
        Metadata::of(value),
        Metadata(vec![
            jsonc::parse(&format!(r#"{{"id":"{feature}"}}"#))
                .unwrap()
                .value(),
            jsonc::parse(&format!(r#"{{"remoteUser":"{user}"}}"#))
                .unwrap()
                .value(),
        ])
    );
}

#[test]
fn when_from_object_then_returns_it_as_one_entry() {
    let user = random_word();
    let value = jsonc::parse(&format!(r#"{{"remoteUser":"{user}"}}"#))
        .unwrap()
        .value();
    assert_eq!(Metadata::of(value.clone()), Metadata(vec![value]));
}

#[test]
fn when_from_empty_object_then_returns_empty() {
    let value = jsonc::parse("{}").unwrap().value();
    assert_eq!(Metadata::of(value), Metadata::default());
}

#[test]
fn when_from_array_with_empty_objects_then_returns_without_them() {
    let user = random_word();
    let value = jsonc::parse(&format!(r#"[{{}},{{"remoteUser":"{user}"}},{{}}]"#))
        .unwrap()
        .value();
    assert_eq!(
        Metadata::of(value),
        Metadata(vec![
            jsonc::parse(&format!(r#"{{"remoteUser":"{user}"}}"#))
                .unwrap()
                .value()
        ])
    );
}

#[test]
fn when_from_non_entry_value_then_returns_empty() {
    assert_eq!(
        Metadata::of(Value::String(random_word())),
        Metadata::default()
    );
    assert_eq!(Metadata::of(Value::Null), Metadata::default());
}

#[test]
fn when_for_container_then_returns_image_features_config_in_order() {
    let (base, feature_a, feature_b, user) =
        (random_word(), random_word(), random_word(), random_word());
    let image = Metadata::of(
        jsonc::parse(&format!(r#"[{{"remoteUser":"{base}"}}]"#))
            .unwrap()
            .value(),
    );
    let features = [
        Metadata::of(
            jsonc::parse(&format!(r#"{{"id":"{feature_a}"}}"#))
                .unwrap()
                .value(),
        ),
        Metadata::of(
            jsonc::parse(&format!(r#"{{"id":"{feature_b}"}}"#))
                .unwrap()
                .value(),
        ),
    ];
    let config = Metadata::of(
        jsonc::parse(&format!(r#"{{"remoteUser":"{user}"}}"#))
            .unwrap()
            .value(),
    );
    assert_eq!(
        Metadata::for_container(image, &features, &config),
        Metadata::of(
            jsonc::parse(&format!(
                r#"[{{"remoteUser":"{base}"}},{{"id":"{feature_a}"}},{{"id":"{feature_b}"}},{{"remoteUser":"{user}"}}]"#
            ))
            .unwrap()
            .value()
        )
    );
}

#[test]
fn when_for_container_with_empty_parts_then_returns_empty() {
    assert_eq!(
        Metadata::for_container(Metadata::default(), &[], &Metadata::default()),
        Metadata::default()
    );
}

#[test]
fn when_to_docker_args_then_returns_label_with_compact_json() {
    let user = random_word();
    let metadata = Metadata::of(
        jsonc::parse(&format!(r#"[{{ "remoteUser" : "{user}" }}]"#))
            .unwrap()
            .value(),
    );
    assert_eq!(
        metadata.to_docker_args(),
        vec![
            "--label".to_string(),
            format!(r#"devcontainer.metadata=[{{"remoteUser":"{user}"}}]"#),
        ]
    );
}

#[test]
fn when_to_docker_args_with_empty_metadata_then_returns_label_with_empty_array() {
    assert_eq!(
        Metadata::default().to_docker_args(),
        vec![
            "--label".to_string(),
            "devcontainer.metadata=[]".to_string()
        ]
    );
}

#[test]
fn when_to_compose_override_then_returns_label_under_service() {
    let (service, user) = (random_word(), random_word());
    let metadata = Metadata::of(
        jsonc::parse(&format!(r#"{{"remoteUser":"{user}"}}"#))
            .unwrap()
            .value(),
    );
    let content = format!("services:\n  '{service}':\n    entrypoint: [\"/bin/sh\"]\n");
    assert_eq!(
        metadata.to_compose_override(&content, &service),
        format!(
            "services:\n  '{service}':\n    labels:\n      - 'devcontainer.metadata=[{{\"remoteUser\":\"{user}\"}}]'\n    entrypoint: [\"/bin/sh\"]\n"
        )
    );
}

#[test]
fn when_to_compose_override_with_dollar_then_returns_it_escaped_for_compose() {
    let (service, command) = (random_word(), random_word());
    let metadata = Metadata::of(
        jsonc::parse(&format!(
            r#"{{"postCreateCommand":"{command} ${{localWorkspaceFolder}}"}}"#
        ))
        .unwrap()
        .value(),
    );
    let content = format!("services:\n  '{service}':\n");
    assert!(
        metadata
            .to_compose_override(&content, &service)
            .contains(&format!("{command} $${{localWorkspaceFolder}}"))
    );
}

#[test]
fn when_to_compose_override_with_single_quote_then_returns_it_escaped_for_yaml() {
    let (service, command) = (random_word(), random_word());
    let metadata = Metadata::of(
        jsonc::parse(&format!(r#"{{"postCreateCommand":"echo '{command}'"}}"#))
            .unwrap()
            .value(),
    );
    let content = format!("services:\n  '{service}':\n");
    assert!(
        metadata
            .to_compose_override(&content, &service)
            .contains(&format!("echo ''{command}''"))
    );
}

#[test]
fn when_to_compose_override_for_other_service_then_returns_content_unchanged() {
    let (service, other) = (random_word(), random_word());
    let content = format!("services:\n  '{service}':\n");
    assert_eq!(
        Metadata::default().to_compose_override(&content, &other),
        content
    );
}

#[test]
fn when_merge_into_with_no_entries_then_returns_the_config_as_is() {
    let config = CommonConfig::from_value(
        &jsonc::parse(&format!(r#"{{"remoteUser":"{}"}}"#, random_word()))
            .unwrap()
            .value(),
    )
    .unwrap();
    assert_eq!(Metadata::default().merge_into((config).clone()), config);
}

#[test]
fn when_merge_into_with_remote_user_only_in_image_then_returns_the_image_user() {
    let user = random_word();
    let merged = Metadata::of(
        jsonc::parse(&format!(r#"[{{"remoteUser":"{user}"}}]"#))
            .unwrap()
            .value(),
    )
    .merge_into((CommonConfig::from_value(&jsonc::parse("{}").unwrap().value()).unwrap()).clone());
    assert_eq!(merged.remote_user, Some(user));
}

#[test]
fn when_merge_into_with_remote_user_in_both_then_returns_the_config_user() {
    let (image_user, config_user) = (random_word(), random_word());
    let merged = Metadata::of(
        jsonc::parse(&format!(r#"[{{"remoteUser":"{image_user}"}}]"#))
            .unwrap()
            .value(),
    )
    .merge_into((CommonConfig::from_value(
            &jsonc::parse(&format!(r#"{{"remoteUser":"{config_user}"}}"#))
                .unwrap()
                .value(),
        )
        .unwrap()).clone());
    assert_eq!(merged.remote_user, Some(config_user));
}

#[test]
fn when_merge_into_with_multiple_entries_then_returns_the_last_value() {
    let (first, last) = (random_word(), random_word());
    let merged = Metadata::of(
        jsonc::parse(&format!(
            r#"[{{"remoteUser":"{first}"}},{{"remoteUser":"{last}"}}]"#
        ))
        .unwrap()
        .value(),
    )
    .merge_into((CommonConfig::from_value(&jsonc::parse("{}").unwrap().value()).unwrap()).clone());
    assert_eq!(merged.remote_user, Some(last));
}

#[test]
fn when_merge_into_with_init_true_in_image_then_returns_init_true() {
    let merged = Metadata::of(jsonc::parse(r#"[{"init":true}]"#).unwrap().value())
        .merge_into((CommonConfig::from_value(&jsonc::parse("{}").unwrap().value()).unwrap()).clone());
    assert_eq!(merged.init, Some(true));
}

#[test]
fn when_merge_into_with_privileged_true_in_image_and_false_in_config_then_returns_privileged_true()
 {
    let merged = Metadata::of(jsonc::parse(r#"[{"privileged":true}]"#).unwrap().value())
        .merge_into((CommonConfig::from_value(
                &jsonc::parse(r#"{"privileged":false}"#).unwrap().value(),
            )
            .unwrap()).clone());
    assert_eq!(merged.privileged, Some(true));
}

#[test]
fn when_merge_into_with_init_false_in_both_then_returns_init_false() {
    let merged = Metadata::of(jsonc::parse(r#"[{"init":false}]"#).unwrap().value())
        .merge_into((CommonConfig::from_value(&jsonc::parse(r#"{"init":false}"#).unwrap().value())
                .unwrap()).clone());
    assert_eq!(merged.init, Some(false));
}

#[test]
fn when_merge_into_with_cap_add_in_both_then_returns_the_union_without_duplicates() {
    let (shared, image_only, config_only) = (random_word(), random_word(), random_word());
    let merged = Metadata::of(
        jsonc::parse(&format!(r#"[{{"capAdd":["{shared}","{image_only}"]}}]"#))
            .unwrap()
            .value(),
    )
    .merge_into((CommonConfig::from_value(
            &jsonc::parse(&format!(r#"{{"capAdd":["{shared}","{config_only}"]}}"#))
                .unwrap()
                .value(),
        )
        .unwrap()).clone());
    assert_eq!(merged.cap_add, vec![shared, image_only, config_only]);
}

#[test]
fn when_merge_into_with_security_opt_in_image_only_then_returns_it() {
    let opt = random_word();
    let merged = Metadata::of(
        jsonc::parse(&format!(r#"[{{"securityOpt":["{opt}"]}}]"#))
            .unwrap()
            .value(),
    )
    .merge_into((CommonConfig::from_value(&jsonc::parse("{}").unwrap().value()).unwrap()).clone());
    assert_eq!(merged.security_opt, vec![opt]);
}

#[test]
fn when_merge_into_with_container_env_of_the_same_key_then_returns_the_config_value() {
    let (key, image_value, config_value) = (random_word(), random_word(), random_word());
    let merged = Metadata::of(
        jsonc::parse(&format!(
            r#"[{{"containerEnv":{{"{key}":"{image_value}"}}}}]"#
        ))
        .unwrap()
        .value(),
    )
    .merge_into((CommonConfig::from_value(
            &jsonc::parse(&format!(
                r#"{{"containerEnv":{{"{key}":"{config_value}"}}}}"#
            ))
            .unwrap()
            .value(),
        )
        .unwrap()).clone());
    assert_eq!(merged.container_env.get(&key), Some(&config_value));
}

#[test]
fn when_merge_into_with_container_env_of_different_keys_then_returns_both() {
    let (image_key, config_key, value) = (random_word(), random_word(), random_word());
    let merged = Metadata::of(
        jsonc::parse(&format!(
            r#"[{{"containerEnv":{{"{image_key}":"{value}"}}}}]"#
        ))
        .unwrap()
        .value(),
    )
    .merge_into((CommonConfig::from_value(
            &jsonc::parse(&format!(
                r#"{{"containerEnv":{{"{config_key}":"{value}"}}}}"#
            ))
            .unwrap()
            .value(),
        )
        .unwrap()).clone());
    assert_eq!(merged.container_env.get(&image_key), Some(&value));
    assert_eq!(merged.container_env.get(&config_key), Some(&value));
}

#[test]
fn when_merge_into_with_mounts_of_the_same_target_then_returns_the_config_mount_only() {
    let (target, image_source, config_source) = (random_word(), random_word(), random_word());
    let merged = Metadata::of(
        jsonc::parse(&format!(
            r#"[{{"mounts":["type=bind,src=/{image_source},dst=/{target}"]}}]"#
        ))
        .unwrap()
        .value(),
    )
    .merge_into((CommonConfig::from_value(
            &jsonc::parse(&format!(
                r#"{{"mounts":["type=bind,src=/{config_source},dst=/{target}"]}}"#
            ))
            .unwrap()
            .value(),
        )
        .unwrap()).clone());
    assert_eq!(
        merged.mounts,
        vec![format!("type=bind,src=/{config_source},dst=/{target}")]
    );
}

#[test]
fn when_merge_into_with_mounts_of_different_targets_then_returns_the_image_mount_first() {
    let (image_target, config_target, source) = (random_word(), random_word(), random_word());
    let merged = Metadata::of(
        jsonc::parse(&format!(
            r#"[{{"mounts":["type=bind,src=/{source},dst=/{image_target}"]}}]"#
        ))
        .unwrap()
        .value(),
    )
    .merge_into((CommonConfig::from_value(
            &jsonc::parse(&format!(
                r#"{{"mounts":["type=bind,src=/{source},dst=/{config_target}"]}}"#
            ))
            .unwrap()
            .value(),
        )
        .unwrap()).clone());
    assert_eq!(
        merged.mounts,
        vec![
            format!("type=bind,src=/{source},dst=/{image_target}"),
            format!("type=bind,src=/{source},dst=/{config_target}"),
        ]
    );
}

#[test]
fn when_merge_into_with_remote_env_in_both_then_returns_them_merged() {
    let (image_key, config_key, value) = (random_word(), random_word(), random_word());
    let merged = Metadata::of(
        jsonc::parse(&format!(r#"[{{"remoteEnv":{{"{image_key}":"{value}"}}}}]"#))
            .unwrap()
            .value(),
    )
    .merge_into((CommonConfig::from_value(
            &jsonc::parse(&format!(r#"{{"remoteEnv":{{"{config_key}":"{value}"}}}}"#))
                .unwrap()
                .value(),
        )
        .unwrap()).clone());
    let remote_env = merged.remote_env.unwrap();
    assert_eq!(lookup(&remote_env, &image_key), Some(&Some(value.clone())));
    assert_eq!(lookup(&remote_env, &config_key), Some(&Some(value)));
}

#[test]
fn when_merge_into_with_wait_for_only_in_image_then_returns_the_image_wait_for() {
    let merged = Metadata::of(
        jsonc::parse(r#"[{"waitFor":"onCreateCommand"}]"#)
            .unwrap()
            .value(),
    )
    .merge_into((CommonConfig::from_value(&jsonc::parse("{}").unwrap().value()).unwrap()).clone());
    assert_eq!(merged.wait_for, Some(WaitFor::OnCreateCommand));
}

#[test]
fn when_merge_into_with_user_env_probe_only_in_image_then_returns_the_image_probe() {
    let merged = Metadata::of(
        jsonc::parse(r#"[{"userEnvProbe":"loginShell"}]"#)
            .unwrap()
            .value(),
    )
    .merge_into((CommonConfig::from_value(&jsonc::parse("{}").unwrap().value()).unwrap()).clone());
    assert_eq!(merged.user_env_probe, Some(UserEnvProbe::LoginShell));
}

#[test]
fn when_merge_into_with_post_create_command_in_image_then_returns_the_config_command() {
    let (image_command, config_command) = (random_word(), random_word());
    let merged = Metadata::of(
        jsonc::parse(&format!(r#"[{{"postCreateCommand":"{image_command}"}}]"#))
            .unwrap()
            .value(),
    )
    .merge_into((CommonConfig::from_value(
            &jsonc::parse(&format!(r#"{{"postCreateCommand":"{config_command}"}}"#))
                .unwrap()
                .value(),
        )
        .unwrap()).clone());
    assert_eq!(
        merged.post_create_command,
        Some(Value::String(config_command))
    );
}

#[test]
fn when_merge_into_with_unparsable_entry_then_returns_the_remaining_entries() {
    let user = random_word();
    let merged = Metadata::of(
        jsonc::parse(&format!(
            r#"[{{"capAdd":"{}"}},{{"remoteUser":"{user}"}}]"#,
            random_word()
        ))
        .unwrap()
        .value(),
    )
    .merge_into((CommonConfig::from_value(&jsonc::parse("{}").unwrap().value()).unwrap()).clone());
    assert_eq!(merged.remote_user, Some(user));
}

#[test]
fn when_lifecycle_commands_with_entries_then_returns_them_in_order() {
    let (first, last) = (random_word(), random_word());
    let metadata = Metadata::of(jsonc::parse(&format!(
        r#"[{{"postCreateCommand":"{first}"}},{{"id":"{}"}},{{"postCreateCommand":"{last}"}}]"#,
        random_word()
    )).unwrap().value());
    assert_eq!(
        metadata.lifecycle_commands("postCreateCommand"),
        vec![Value::String(first), Value::String(last)]
    );
}

#[test]
fn when_lifecycle_commands_without_the_key_then_returns_empty() {
    let metadata = Metadata::of(
        jsonc::parse(&format!(r#"[{{"remoteUser":"{}"}}]"#, random_word()))
            .unwrap()
            .value(),
    );
    assert_eq!(metadata.lifecycle_commands("postCreateCommand"), vec![]);
}

#[test]
fn when_mount_target_with_target_key_then_returns_its_value() {
    let target = random_word();
    for key in ["target", "dst", "destination"] {
        assert_eq!(
            mount_target(&format!("type=bind,src=/{},{key}=/{target}", random_word())),
            Some(format!("/{target}"))
        );
    }
}

#[test]
fn when_mount_target_without_target_key_then_returns_none() {
    assert_eq!(
        mount_target(&format!("type=volume,src=/{}", random_word())),
        None
    );
}
