use cashyyc::devcontainer::jsonc::access::StringMap;
use cashyyc::devcontainer::jsonc::{parse, Value};
use cashyyc::features::manifest::Feature;
use cashyyc::features::plan::{feature_dockerfile, InstallPlan};

fn env_of(pairs: &[(&str, &str)]) -> StringMap {
    let mut map = StringMap::new();
    for (k, v) in pairs {
        map.insert(k.to_string(), v.to_string());
    }
    map
}

fn make_feature(short_id: &str, installs_after: Vec<&str>) -> Feature {
    Feature {
        short_id: short_id.to_string(),
        dir: format!("/{short_id}"),
        options: Value::Object(vec![]),
        installs_after: installs_after.into_iter().map(String::from).collect(),
        container_env: StringMap::new(),
        privileged: None,
        init: None,
        cap_add: vec![],
        security_opt: vec![],
        mounts: vec![],
        entrypoint: None,
        on_create_command: None,
        update_content_command: None,
        post_create_command: None,
        post_start_command: None,
        post_attach_command: None,
    }
}

#[test]
fn when_installs_after_declared_then_dependency_comes_first() {
    let features = vec![
        make_feature("node", vec!["common-utils"]),
        make_feature("common-utils", vec![]),
    ];
    let plan = InstallPlan::new(features, &[]).unwrap();
    let ids: Vec<_> = plan
        .features()
        .iter()
        .map(|f| f.short_id.as_str())
        .collect();
    assert_eq!(ids, vec!["common-utils", "node"]);
}

#[test]
fn when_installs_after_references_oci_id_then_resolves_by_short_id() {
    let features = vec![
        make_feature(
            "node",
            vec!["ghcr.io/devcontainers/features/common-utils:1"],
        ),
        make_feature("common-utils", vec![]),
    ];
    let plan = InstallPlan::new(features, &[]).unwrap();
    let ids: Vec<_> = plan
        .features()
        .iter()
        .map(|f| f.short_id.as_str())
        .collect();
    assert_eq!(ids, vec!["common-utils", "node"]);
}

#[test]
fn when_circular_dependency_then_returns_error() {
    let features = vec![make_feature("a", vec!["b"]), make_feature("b", vec!["a"])];
    assert!(InstallPlan::new(features, &[]).is_err());
}

#[test]
fn when_installs_after_references_unknown_feature_then_ignored() {
    let features = vec![make_feature("git", vec!["unknown-feature"])];
    let plan = InstallPlan::new(features, &[]).unwrap();
    assert_eq!(plan.features().len(), 1);
}

#[test]
fn when_override_order_specified_then_listed_features_install_first() {
    let features = vec![
        make_feature("a", vec![]),
        make_feature("b", vec![]),
        make_feature("c", vec![]),
    ];
    let plan = InstallPlan::new(features, &["c".to_string(), "b".to_string()]).unwrap();
    let ids: Vec<_> = plan
        .features()
        .iter()
        .map(|f| f.short_id.as_str())
        .collect();
    assert_eq!(ids, vec!["c", "b", "a"]);
}

#[test]
fn when_override_order_conflicts_with_installs_after_then_installs_after_wins() {
    let features = vec![make_feature("a", vec![]), make_feature("b", vec!["a"])];
    let plan = InstallPlan::new(features, &["b".to_string()]).unwrap();
    let ids: Vec<_> = plan
        .features()
        .iter()
        .map(|f| f.short_id.as_str())
        .collect();
    assert_eq!(ids, vec!["a", "b"]);
}

#[test]
fn when_override_order_uses_oci_ref_then_matches_by_short_id() {
    let features = vec![make_feature("a", vec![]), make_feature("b", vec![])];
    let plan = InstallPlan::new(
        features,
        &["ghcr.io/devcontainers/features/b:1".to_string()],
    )
    .unwrap();
    let ids: Vec<_> = plan
        .features()
        .iter()
        .map(|f| f.short_id.as_str())
        .collect();
    assert_eq!(ids, vec!["b", "a"]);
}

#[test]
fn when_feature_dockerfile_with_no_options_then_runs_install_script() {
    let features = vec![Feature {
        short_id: "git".to_string(),
        dir: "/tmp/0".to_string(),
        options: Value::Object(vec![]),
        installs_after: vec![],
        container_env: StringMap::new(),
        privileged: None,
        init: None,
        cap_add: vec![],
        security_opt: vec![],
        mounts: vec![],
        entrypoint: None,
        on_create_command: None,
        update_content_command: None,
        post_create_command: None,
        post_start_command: None,
        post_attach_command: None,
    }];
    let plan = InstallPlan::new(features, &[]).unwrap();
    let df = feature_dockerfile("FROM rust:latest", &plan);
    assert!(df.contains("COPY ./0/ /tmp/dev-container-features/git/"));
    assert!(df.contains(
        "RUN chmod -R 0755 /tmp/dev-container-features/git && cd /tmp/dev-container-features/git && chmod +x ./install.sh && ./install.sh"
    ));
}

#[test]
fn when_feature_dockerfile_with_string_option_then_exports_uppercased_key() {
    let features = vec![Feature {
        short_id: "node".to_string(),
        dir: "/tmp/0".to_string(),
        options: parse(r#"{ "version": "18" }"#).unwrap().value(),
        installs_after: vec![],
        container_env: StringMap::new(),
        privileged: None,
        init: None,
        cap_add: vec![],
        security_opt: vec![],
        mounts: vec![],
        entrypoint: None,
        on_create_command: None,
        update_content_command: None,
        post_create_command: None,
        post_start_command: None,
        post_attach_command: None,
    }];
    let plan = InstallPlan::new(features, &[]).unwrap();
    let df = feature_dockerfile("FROM ubuntu:22.04", &plan);
    assert!(df.contains("export VERSION='18'"));
}

#[test]
fn when_feature_dockerfile_with_boolean_option_then_exports_serialized_value() {
    let features = vec![Feature {
        short_id: "docker".to_string(),
        dir: "/tmp/0".to_string(),
        options: parse(r#"{ "moby": true }"#).unwrap().value(),
        installs_after: vec![],
        container_env: StringMap::new(),
        privileged: None,
        init: None,
        cap_add: vec![],
        security_opt: vec![],
        mounts: vec![],
        entrypoint: None,
        on_create_command: None,
        update_content_command: None,
        post_create_command: None,
        post_start_command: None,
        post_attach_command: None,
    }];
    let plan = InstallPlan::new(features, &[]).unwrap();
    let df = feature_dockerfile("FROM ubuntu:22.04", &plan);
    assert!(df.contains("export MOBY='true'"));
}

#[test]
fn when_feature_dockerfile_with_container_env_then_includes_env_directives() {
    let features = vec![Feature {
        short_id: "node".to_string(),
        dir: "/tmp/0".to_string(),
        options: Value::Object(vec![]),
        installs_after: vec![],
        container_env: env_of(&[("NVM_DIR", "/usr/local/nvm")]),
        privileged: None,
        init: None,
        cap_add: vec![],
        security_opt: vec![],
        mounts: vec![],
        entrypoint: None,
        on_create_command: None,
        update_content_command: None,
        post_create_command: None,
        post_start_command: None,
        post_attach_command: None,
    }];
    let plan = InstallPlan::new(features, &[]).unwrap();
    let df = feature_dockerfile("FROM ubuntu:22.04", &plan);
    assert!(df.contains("ENV NVM_DIR=/usr/local/nvm"));
}

#[test]
fn when_feature_dockerfile_with_non_object_options_then_no_exports() {
    let features = vec![Feature {
        short_id: "git".to_string(),
        dir: "/tmp/0".to_string(),
        options: Value::Null,
        installs_after: vec![],
        container_env: StringMap::new(),
        privileged: None,
        init: None,
        cap_add: vec![],
        security_opt: vec![],
        mounts: vec![],
        entrypoint: None,
        on_create_command: None,
        update_content_command: None,
        post_create_command: None,
        post_start_command: None,
        post_attach_command: None,
    }];
    let plan = InstallPlan::new(features, &[]).unwrap();
    let df = feature_dockerfile("FROM ubuntu:22.04", &plan);
    assert!(!df.contains("export"));
}

fn feature_in(short_id: &str, dir: &str, options: Value) -> Feature {
    let mut f = make_feature(short_id, vec![]);
    f.dir = dir.to_string();
    f.options = options;
    f
}

#[test]
fn sort_respects_installs_after() {
    let features = vec![
        make_feature("node", vec!["common-utils"]),
        make_feature("common-utils", vec![]),
    ];
    let plan = InstallPlan::new(features, &[]).unwrap();
    let ids: Vec<_> = plan
        .features()
        .iter()
        .map(|f| f.short_id.as_str())
        .collect();
    assert_eq!(ids, vec!["common-utils", "node"]);
}

#[test]
fn sort_respects_installs_after_with_oci_version() {
    let features = vec![
        make_feature(
            "node",
            vec!["ghcr.io/devcontainers/features/common-utils:1"],
        ),
        make_feature("common-utils", vec![]),
    ];
    let plan = InstallPlan::new(features, &[]).unwrap();
    let ids: Vec<_> = plan
        .features()
        .iter()
        .map(|f| f.short_id.as_str())
        .collect();
    assert_eq!(ids, vec!["common-utils", "node"]);
}

#[test]
fn sort_detects_cycle() {
    let features = vec![make_feature("a", vec!["b"]), make_feature("b", vec!["a"])];
    assert!(InstallPlan::new(features, &[]).is_err());
}

#[test]
fn sort_unknown_dep_is_ignored() {
    let features = vec![make_feature("git", vec!["unknown-feature"])];
    let plan = InstallPlan::new(features, &[]).unwrap();
    assert_eq!(plan.features().len(), 1);
}

#[test]
fn feature_dockerfile_no_options() {
    let features = vec![feature_in("git", "/tmp/0", Value::Object(vec![]))];
    let plan = InstallPlan::new(features, &[]).unwrap();
    let df = feature_dockerfile("FROM rust:latest", &plan);
    assert!(df.contains("FROM rust:latest"));
    assert!(df.contains("COPY ./0/ /tmp/dev-container-features/git/"));
    assert!(df.contains("./install.sh"));
}

#[test]
fn feature_dockerfile_with_options() {
    let features = vec![feature_in("node", "/tmp/0", parse(r#"{ "version": "18" }"#).unwrap().value())];
    let plan = InstallPlan::new(features, &[]).unwrap();
    let df = feature_dockerfile("FROM ubuntu:22.04", &plan);
    assert!(df.contains("export VERSION='18'"));
}
