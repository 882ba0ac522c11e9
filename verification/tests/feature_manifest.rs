use cashyyc::devcontainer::jsonc::Value;
use cashyyc::features::manifest::FeatureManifest;
use cashyyc::random_string::{generate_random_string, CharacterType};

fn urandom() -> Vec<u8> {
    let state = std::collections::hash_map::RandomState::new();
    let mut out = Vec::new();
    let mut i: u64 = 0;
    while out.len() < 64 {
        let mut h = std::hash::BuildHasher::build_hasher(&state);
        std::hash::Hasher::write_u64(&mut h, i);
        out.extend_from_slice(&std::hash::Hasher::finish(&h).to_le_bytes());
        i += 1;
    }
    out
}

fn random_name() -> String {
    generate_random_string(8, &[CharacterType::Lowercase], "", &urandom())
}

#[test]
fn when_parse_with_installs_after_then_ids_are_parsed() {
    let dep = random_name();
    let content = format!(r#"{{"id":"git","installsAfter":["{dep}"]}}"#);
    let m = FeatureManifest::parse(&content).unwrap();
    assert_eq!(m.installs_after, vec![dep]);
}

#[test]
fn when_parse_with_privileged_true_then_privileged_is_some_true() {
    let m = FeatureManifest::parse(r#"{"id":"f","privileged":true}"#).unwrap();
    assert_eq!(m.privileged, Some(true));
}

#[test]
fn when_parse_without_privileged_then_privileged_is_none() {
    let m = FeatureManifest::parse(r#"{"id":"f"}"#).unwrap();
    assert_eq!(m.privileged, None);
}

#[test]
fn when_parse_with_init_true_then_init_is_some_true() {
    let m = FeatureManifest::parse(r#"{"id":"f","init":true}"#).unwrap();
    assert_eq!(m.init, Some(true));
}

#[test]
fn when_parse_without_init_then_init_is_none() {
    let m = FeatureManifest::parse(r#"{"id":"f"}"#).unwrap();
    assert_eq!(m.init, None);
}

#[test]
fn when_parse_with_cap_add_then_capabilities_are_parsed() {
    let cap = random_name();
    let content = format!(r#"{{"id":"f","capAdd":["{cap}"]}}"#);
    let m = FeatureManifest::parse(&content).unwrap();
    assert_eq!(m.cap_add, vec![cap]);
}

#[test]
fn when_parse_without_cap_add_then_cap_add_is_empty() {
    let m = FeatureManifest::parse(r#"{"id":"f"}"#).unwrap();
    assert!(m.cap_add.is_empty());
}

#[test]
fn when_parse_with_security_opt_then_options_are_parsed() {
    let opt = random_name();
    let content = format!(r#"{{"id":"f","securityOpt":["{opt}"]}}"#);
    let m = FeatureManifest::parse(&content).unwrap();
    assert_eq!(m.security_opt, vec![opt]);
}

#[test]
fn when_parse_without_security_opt_then_security_opt_is_empty() {
    let m = FeatureManifest::parse(r#"{"id":"f"}"#).unwrap();
    assert!(m.security_opt.is_empty());
}

#[test]
fn when_parse_with_mounts_then_mount_fields_are_parsed() {
    let source = format!("/var/run/{}", random_name());
    let target = format!("/var/run/{}", random_name());
    let content = format!(
        r#"{{"id":"f","mounts":[{{"type":"bind","source":"{source}","target":"{target}"}}]}}"#
    );
    let m = FeatureManifest::parse(&content).unwrap();
    assert_eq!(m.mounts.len(), 1);
    assert_eq!(m.mounts[0].mount_type, "bind");
    assert_eq!(m.mounts[0].source.as_deref(), Some(source.as_str()));
    assert_eq!(m.mounts[0].target, target);
}

#[test]
fn when_parse_without_mounts_then_mounts_is_empty() {
    let m = FeatureManifest::parse(r#"{"id":"f"}"#).unwrap();
    assert!(m.mounts.is_empty());
}

#[test]
fn when_parse_with_entrypoint_then_entrypoint_is_some() {
    let ep = format!("/usr/local/share/{}-init.sh", random_name());
    let content = format!(r#"{{"id":"f","entrypoint":"{ep}"}}"#);
    let m = FeatureManifest::parse(&content).unwrap();
    assert_eq!(m.entrypoint, Some(ep));
}

#[test]
fn when_parse_without_entrypoint_then_entrypoint_is_none() {
    let m = FeatureManifest::parse(r#"{"id":"f"}"#).unwrap();
    assert_eq!(m.entrypoint, None);
}

#[test]
fn when_parse_with_invalid_json_then_returns_error() {
    assert!(FeatureManifest::parse("not json").is_err());
}

#[test]
fn when_parse_without_id_field_then_returns_error() {
    assert!(FeatureManifest::parse("{}").is_err());
}

#[test]
fn when_parse_with_non_string_id_then_returns_error() {
    assert!(FeatureManifest::parse(r#"{"id":123}"#).is_err());
}

#[test]
fn when_parse_with_post_create_command_string_then_parsed_as_value() {
    let cmd = random_name();
    let content = format!(r#"{{"id":"f","postCreateCommand":"{cmd}"}}"#);
    let m = FeatureManifest::parse(&content).unwrap();
    assert_eq!(m.post_create_command, Some(Value::String(cmd)));
}

#[test]
fn when_parse_without_lifecycle_commands_then_all_are_none() {
    let m = FeatureManifest::parse(r#"{"id":"f"}"#).unwrap();
    assert!(m.on_create_command.is_none());
    assert!(m.update_content_command.is_none());
    assert!(m.post_create_command.is_none());
    assert!(m.post_start_command.is_none());
    assert!(m.post_attach_command.is_none());
}

#[test]
fn when_parse_with_mounts_without_source_then_source_is_none() {
    let m = FeatureManifest::parse(r#"{"id":"f","mounts":[{"type":"volume","target":"/data"}]}"#).unwrap();
    assert_eq!(m.mounts.len(), 1);
    assert_eq!(m.mounts[0].mount_type, "volume");
    assert_eq!(m.mounts[0].source, None);
    assert_eq!(m.mounts[0].target, "/data");
}

#[test]
fn when_parse_without_id_then_error_names_the_missing_field() {
    let e = FeatureManifest::parse("{}").unwrap_err();
    assert_eq!(e.message(), "failed to parse devcontainer-feature.json: missing field `id`");
}

#[test]
fn when_parse_with_non_string_id_then_error_names_the_field() {
    let e = FeatureManifest::parse(r#"{"id":123}"#).unwrap_err();
    assert_eq!(e.message(), "failed to parse devcontainer-feature.json: invalid type for field `id`");
}

#[test]
fn when_parse_with_mount_missing_target_then_error_names_mounts() {
    let e = FeatureManifest::parse(r#"{"id":"f","mounts":[{"type":"bind"}]}"#).unwrap_err();
    assert_eq!(e.message(), "failed to parse devcontainer-feature.json: invalid type for field `mounts`");
}

#[test]
fn when_parse_with_mounts_not_an_array_then_error_names_mounts() {
    let e = FeatureManifest::parse(r#"{"id":"f","mounts":"x"}"#).unwrap_err();
    assert_eq!(e.message(), "failed to parse devcontainer-feature.json: invalid type for field `mounts`");
}

#[test]
fn when_parse_with_non_string_cap_then_error_names_cap_add() {
    let e = FeatureManifest::parse(r#"{"id":"f","capAdd":[1]}"#).unwrap_err();
    assert_eq!(e.message(), "failed to parse devcontainer-feature.json: invalid type for field `capAdd`");
}

#[test]
fn when_parse_with_non_bool_privileged_then_error_names_privileged() {
    let e = FeatureManifest::parse(r#"{"id":"f","privileged":"yes"}"#).unwrap_err();
    assert_eq!(e.message(), "failed to parse devcontainer-feature.json: invalid type for field `privileged`");
}

#[test]
fn when_parse_with_container_env_then_pairs_are_read() {
    let m = FeatureManifest::parse(r#"{"id":"f","containerEnv":{"B":"2","A":"1"}}"#).unwrap();
    let pairs: Vec<(String, String)> = m.container_env.entries().to_vec();
    assert_eq!(pairs, vec![("A".to_string(), "1".to_string()), ("B".to_string(), "2".to_string())]);
}

#[test]
fn when_parse_with_null_entrypoint_then_entrypoint_is_none() {
    let m = FeatureManifest::parse(r#"{"id":"f","entrypoint":null}"#).unwrap();
    assert_eq!(m.entrypoint, None);
}

#[test]
fn feature_manifest_parse() {
    let content = r#"{"id":"git","version":"1.0","installsAfter":["common-utils"]}"#;
    let m = FeatureManifest::parse(content).unwrap();
    assert_eq!(m.id, "git");
    assert_eq!(m.installs_after, vec!["common-utils"]);
}
