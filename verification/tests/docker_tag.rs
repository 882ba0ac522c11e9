use cashyyc::docker::tag::image_tag;

#[test]
fn tag_when_image_tag_then_starts_with_vsc_and_folder_name() {
    let tag = image_tag("/home/user/myproject");
    assert!(tag.starts_with("vsc-myproject-"));
}

#[test]
fn tag_when_image_tag_with_same_path_then_same_result() {
    let path = "/home/user/myproject";
    assert_eq!(image_tag(path), image_tag(path));
}

#[test]
fn tag_when_image_tag_with_different_paths_then_different_results() {
    let a = image_tag("/home/user/project-a");
    let b = image_tag("/home/user/project-b");
    assert_ne!(a, b);
}

#[test]
fn tag_when_image_tag_with_uppercase_folder_name_then_lowercase_in_tag() {
    let tag = image_tag("/home/user/MyProject");
    assert!(tag.starts_with("vsc-myproject-"));
}

#[test]
fn tag_when_image_tag_with_special_chars_in_folder_name_then_removed() {
    let tag = image_tag("/home/user/my@project");
    assert!(tag.starts_with("vsc-myproject-"));
}

#[test]
fn tag_when_image_tag_with_spaces_in_folder_name_then_removed() {
    let tag = image_tag("/home/user/my project");
    assert!(tag.starts_with("vsc-myproject-"));
}

#[test]
fn tag_when_image_tag_with_leading_hyphen_in_folder_name_then_trimmed() {
    let tag = image_tag("/home/user/-myproject");
    assert!(tag.starts_with("vsc-myproject-"));
}

#[test]
fn tag_when_image_tag_with_leading_period_in_folder_name_then_trimmed() {
    let tag = image_tag("/home/user/.myproject");
    assert!(tag.starts_with("vsc-myproject-"));
}

#[test]
fn tag_when_image_tag_with_only_invalid_chars_in_folder_name_then_workspace() {
    let tag = image_tag("/home/user/@@@");
    assert!(tag.starts_with("vsc-workspace-"));
}
