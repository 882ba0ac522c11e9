use cashyyc::docker::command::{compose_config_args, ps_ids_args, with_subcommand};
use cashyyc::docker::{
    find_container, image_tag, parse_container_id, parse_container_ids, parse_image_config_json,
    parse_remote_user_from_metadata, ImageConfig,
};
use cashyyc::random_string::{generate_random_string, CharacterType};

fn urandom() -> Vec<u8> {
    let state = std::collections::hash_map::RandomState::new();
    let mut out = Vec::new();
    let mut i: u64 = 0;
    while out.len() < 64 {
        let mut h = std::hash::BuildHasher::build_hasher(&state);
        std::hash::Hasher::write_u64(&mut h, i);
        out.extend_from_slice(&std::hash::Hasher::finish(&h).to_le_bytes());
        i += 1;
    }
    out
}

fn random_id() -> String {
    generate_random_string(
        12,
        &[CharacterType::Lowercase, CharacterType::Numeric],
        "",
        &urandom(),
    )
}

#[test]
fn when_parse_container_id_with_container_id_then_returns_some() {
    let id = random_id();
    let output = format!("{}\n", id);
    assert_eq!(parse_container_id(&output), Some(id));
}

#[test]
fn when_parse_container_id_with_empty_output_then_returns_none() {
    assert_eq!(parse_container_id(""), None);
}

#[test]
fn when_parse_container_id_with_newline_only_then_returns_none() {
    assert_eq!(parse_container_id("\n"), None);
}

#[test]
fn when_parse_container_ids_with_multiple_ids_then_returns_all() {
    let id1 = random_id();
    let id2 = random_id();
    let output = format!("{}\n{}\n", id1, id2);
    assert_eq!(parse_container_ids(&output), vec![id1, id2]);
}

#[test]
fn when_parse_container_ids_with_empty_string_then_returns_empty() {
    assert_eq!(parse_container_ids(""), Vec::<String>::new());
}

#[test]
fn when_parse_container_ids_with_single_id_then_returns_vec_with_one() {
    let id = random_id();
    let output = format!("{}\n", id);
    assert_eq!(parse_container_ids(&output), vec![id]);
}

#[test]
fn docker_when_image_tag_then_starts_with_vsc_and_folder_name() {
    let tag = image_tag("/home/user/myproject");
    assert!(tag.starts_with("vsc-myproject-"));
}

#[test]
fn docker_when_image_tag_with_same_path_then_same_result() {
    let path = "/home/user/myproject";
    assert_eq!(image_tag(path), image_tag(path));
}

#[test]
fn docker_when_image_tag_with_different_paths_then_different_results() {
    let a = image_tag("/home/user/project-a");
    let b = image_tag("/home/user/project-b");
    assert_ne!(a, b);
}

#[test]
fn docker_when_image_tag_with_uppercase_folder_name_then_lowercase_in_tag() {
    let tag = image_tag("/home/user/MyProject");
    assert!(tag.starts_with("vsc-myproject-"));
}

#[test]
fn docker_when_image_tag_with_special_chars_in_folder_name_then_removed() {
    let tag = image_tag("/home/user/my@project");
    assert!(tag.starts_with("vsc-myproject-"));
}

#[test]
fn docker_when_image_tag_with_spaces_in_folder_name_then_removed() {
    let tag = image_tag("/home/user/my project");
    assert!(tag.starts_with("vsc-myproject-"));
}

#[test]
fn docker_when_image_tag_with_leading_hyphen_in_folder_name_then_trimmed() {
    let tag = image_tag("/home/user/-myproject");
    assert!(tag.starts_with("vsc-myproject-"));
}

#[test]
fn docker_when_image_tag_with_leading_period_in_folder_name_then_trimmed() {
    let tag = image_tag("/home/user/.myproject");
    assert!(tag.starts_with("vsc-myproject-"));
}

#[test]
fn docker_when_image_tag_with_only_invalid_chars_in_folder_name_then_workspace() {
    let tag = image_tag("/home/user/@@@");
    assert!(tag.starts_with("vsc-workspace-"));
}

fn make_inspect_json(
    id: &str,
    local_folder: &str,
    config_file: &str,
    metadata: &str,
    user: &str,
) -> String {
    format!(
        r#"[{{"Id":"{id}","Config":{{"User":"{user}","Labels":{{"devcontainer.local_folder":"{local_folder}","devcontainer.config_file":"{config_file}","devcontainer.metadata":"{metadata}"}}}}}}]"#,
    )
}

#[test]
fn when_parse_remote_user_from_metadata_with_remote_user_then_returns_some() {
    let metadata = r#"[{"id":"feature:1"},{"remoteUser":"vscode"},{"id":"feature:2"}]"#;
    assert_eq!(
        parse_remote_user_from_metadata(metadata),
        Some("vscode".to_string())
    );
}

#[test]
fn when_parse_remote_user_from_metadata_without_remote_user_then_returns_none() {
    let metadata = r#"[{"id":"feature:1"},{"id":"feature:2"}]"#;
    assert_eq!(parse_remote_user_from_metadata(metadata), None);
}

#[test]
fn when_parse_remote_user_from_metadata_with_empty_string_then_returns_none() {
    assert_eq!(parse_remote_user_from_metadata(""), None);
}

#[test]
fn when_parse_remote_user_from_metadata_with_empty_remote_user_then_returns_none() {
    let metadata = r#"[{"id":"feature:1"},{"remoteUser":""},{"id":"feature:2"}]"#;
    assert_eq!(parse_remote_user_from_metadata(metadata), None);
}

#[test]
fn when_find_container_with_matching_linux_labels_then_returns_container() {
    let id = random_id();
    let json = make_inspect_json(
        &id,
        "/host/project",
        "/host/project/.devcontainer/devcontainer.json",
        "[]",
        "",
    );
    let result = find_container(
        &json,
        "/cwd/project/.devcontainer/devcontainer.json",
        "/cwd/project",
    );
    assert_eq!(result.map(|c| c.id), Some(id));
}

#[test]
fn when_find_container_with_matching_windows_labels_then_returns_container() {
    let id = random_id();
    let json = make_inspect_json(
        &id,
        "C:\\\\Users\\\\user\\\\project",
        "C:\\\\Users\\\\user\\\\project\\\\.devcontainer\\\\devcontainer.json",
        "[]",
        "",
    );
    let result = find_container(
        &json,
        "/cwd/project/.devcontainer/devcontainer.json",
        "/cwd/project",
    );
    assert!(result.is_some());
}

#[test]
fn when_find_container_with_matching_wsl_local_folder_then_returns_container() {
    let id = random_id();
    let json = make_inspect_json(
        &id,
        "\\\\\\\\wsl.localhost\\\\Ubuntu\\\\home\\\\user\\\\project",
        "/home/user/project/.devcontainer/devcontainer.json",
        "[]",
        "",
    );
    let result = find_container(
        &json,
        "/cwd/project/.devcontainer/devcontainer.json",
        "/cwd/project",
    );
    assert!(result.is_some());
}

#[test]
fn when_find_container_with_different_basename_then_returns_none() {
    let id = random_id();
    let json = make_inspect_json(
        &id,
        "/host/other-project",
        "/host/other-project/.devcontainer/devcontainer.json",
        "[]",
        "",
    );
    let result = find_container(
        &json,
        "/cwd/project/.devcontainer/devcontainer.json",
        "/cwd/project",
    );
    assert!(result.is_none());
}

#[test]
fn when_find_container_with_different_config_file_then_returns_none() {
    let id = random_id();
    let json = make_inspect_json(
        &id,
        "/host/project",
        "/host/project/.devcontainer/other/devcontainer.json",
        "[]",
        "",
    );
    let result = find_container(
        &json,
        "/cwd/project/.devcontainer/config1/devcontainer.json",
        "/cwd/project",
    );
    assert!(result.is_none());
}

#[test]
fn when_find_container_with_remote_user_in_metadata_then_returns_it() {
    let id = random_id();
    let json = make_inspect_json(
        &id,
        "/host/project",
        "/host/project/.devcontainer/devcontainer.json",
        r#"[{\"remoteUser\":\"vscode\"}]"#,
        "",
    );
    let result = find_container(
        &json,
        "/cwd/project/.devcontainer/devcontainer.json",
        "/cwd/project",
    );
    assert_eq!(
        result.and_then(|c| c.remote_user),
        Some("vscode".to_string())
    );
}

#[test]
fn when_find_container_with_remote_user_in_config_user_then_returns_it() {
    let id = random_id();
    let json = make_inspect_json(
        &id,
        "/host/project",
        "/host/project/.devcontainer/devcontainer.json",
        "[]",
        "node",
    );
    let result = find_container(
        &json,
        "/cwd/project/.devcontainer/devcontainer.json",
        "/cwd/project",
    );
    assert_eq!(result.and_then(|c| c.remote_user), Some("node".to_string()));
}

#[test]
fn when_find_container_with_empty_json_then_returns_none() {
    assert!(
        find_container(
            "",
            "/cwd/project/.devcontainer/devcontainer.json",
            "/cwd/project",
        )
        .is_none()
    );
}

#[test]
fn when_find_container_with_multiple_candidates_then_returns_first_match() {
    let id1 = random_id();
    let id2 = random_id();
    let json = format!(
        r#"[{{"Id":"{id1}","Config":{{"User":"","Labels":{{"devcontainer.local_folder":"/host/other","devcontainer.config_file":"/host/other/.devcontainer/devcontainer.json","devcontainer.metadata":"[]"}}}}}},{{"Id":"{id2}","Config":{{"User":"","Labels":{{"devcontainer.local_folder":"/host/project","devcontainer.config_file":"/host/project/.devcontainer/devcontainer.json","devcontainer.metadata":"[]"}}}}}}]"#
    );
    let result = find_container(
        &json,
        "/cwd/project/.devcontainer/devcontainer.json",
        "/cwd/project",
    );
    assert_eq!(result.map(|c| c.id), Some(id2));
}

#[test]
fn when_parse_image_config_json_with_array_then_returns_vec() {
    assert_eq!(
        parse_image_config_json(r#"["/entrypoint.sh","--flag"]"#),
        vec!["/entrypoint.sh".to_string(), "--flag".to_string()]
    );
}

#[test]
fn when_image_config_parse_with_entrypoint_and_cmd_then_returns_both() {
    let json = r#"{"Entrypoint":["/entrypoint.sh"],"Cmd":["start"]}"#;
    let c = ImageConfig::parse(json);
    assert_eq!(c.entrypoint, vec!["/entrypoint.sh"]);
    assert_eq!(c.cmd, vec!["start"]);
}

#[test]
fn when_image_config_parse_with_null_fields_then_returns_empty_vecs() {
    let json = r#"{"Entrypoint":null,"Cmd":null}"#;
    let c = ImageConfig::parse(json);
    assert!(c.entrypoint.is_empty());
    assert!(c.cmd.is_empty());
}

#[test]
fn when_image_config_parse_with_invalid_json_then_returns_empty_vecs() {
    let c = ImageConfig::parse("");
    assert!(c.entrypoint.is_empty());
    assert!(c.cmd.is_empty());
}

#[test]
fn when_parse_image_config_json_with_null_then_returns_empty_vec() {
    assert_eq!(parse_image_config_json("null"), Vec::<String>::new());
}

#[test]
fn when_parse_image_config_json_with_empty_array_then_returns_empty_vec() {
    assert_eq!(parse_image_config_json("[]"), Vec::<String>::new());
}

#[test]
fn when_parse_image_config_json_with_invalid_then_returns_empty_vec() {
    assert_eq!(parse_image_config_json(""), Vec::<String>::new());
}

#[test]
fn when_parse_image_config_json_with_mixed_items_then_keeps_only_strings() {
    assert_eq!(
        parse_image_config_json(" [\"a\", 1, null, \"b\"] \n"),
        vec!["a".to_string(), "b".to_string()]
    );
}

#[test]
fn when_parse_image_config_json_with_object_then_returns_empty_vec() {
    assert_eq!(parse_image_config_json(r#"{"a":"b"}"#), Vec::<String>::new());
}

#[test]
fn when_find_container_with_config_outside_cwd_then_returns_none() {
    let json = make_inspect_json(
        "abc",
        "/host/project",
        "/host/project/.devcontainer/devcontainer.json",
        "[]",
        "",
    );
    assert!(find_container(&json, "/elsewhere/devcontainer.json", "/cwd/project").is_none());
}

#[test]
fn when_find_container_with_root_cwd_then_returns_none() {
    let json = make_inspect_json("abc", "/", "/.devcontainer/devcontainer.json", "[]", "");
    assert!(find_container(&json, "/.devcontainer/devcontainer.json", "/").is_none());
}

#[test]
fn when_find_container_with_trailing_slash_in_label_then_uses_last_name() {
    let json = make_inspect_json(
        "abc",
        "/host/project/",
        "/host/project/.devcontainer/devcontainer.json",
        "[]",
        "",
    );
    let c = find_container(&json, "/cwd/project/.devcontainer/devcontainer.json", "/cwd/project/").unwrap();
    assert_eq!(c.id, "abc");
    assert_eq!(c.remote_user, None);
}

#[test]
fn when_find_container_with_metadata_and_config_user_then_metadata_wins() {
    let json = make_inspect_json(
        "abc",
        "/host/project",
        "/host/project/.devcontainer/devcontainer.json",
        r#"[{\"remoteUser\":\"vscode\"}]"#,
        "node",
    );
    let c = find_container(&json, "/cwd/project/.devcontainer/devcontainer.json", "/cwd/project").unwrap();
    assert_eq!(c.remote_user, Some("vscode".to_string()));
}

#[test]
fn when_ps_ids_args_with_filters_then_each_follows_filter_flag() {
    let args = ps_ids_args(&["label=a".to_string(), "label=b".to_string()], true);
    assert_eq!(
        args,
        vec!["ps", "-a", "--filter", "label=a", "--filter", "label=b", "--format", "{{.ID}}"]
    );
}

#[test]
fn when_ps_ids_args_without_all_states_then_no_a_flag() {
    assert_eq!(ps_ids_args(&[], false), vec!["ps", "--format", "{{.ID}}"]);
}

#[test]
fn when_with_subcommand_then_subcommand_comes_first() {
    assert_eq!(
        with_subcommand(&["image", "inspect"], &["x".to_string()]),
        vec!["image", "inspect", "x"]
    );
}

#[test]
fn when_compose_config_args_then_asks_for_json() {
    assert_eq!(
        compose_config_args(&["-f".to_string(), "a.yml".to_string()]),
        vec!["compose", "-f", "a.yml", "config", "--format", "json"]
    );
}
