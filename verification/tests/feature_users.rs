use cashyyc::features::users::FeatureInstallUsers;

#[test]
fn when_new_with_container_user_and_remote_user_then_both_named() {
    assert!(matches!(
        FeatureInstallUsers::new(Some("root"), Some("vscode")),
        FeatureInstallUsers::BothNamed { container, remote } if container == "root" && remote == "vscode"
    ));
}

#[test]
fn when_new_with_container_user_and_no_remote_user_then_container_only() {
    assert!(matches!(
        FeatureInstallUsers::new(Some("root"), None),
        FeatureInstallUsers::ContainerOnly(c) if c == "root"
    ));
}

#[test]
fn when_new_with_no_container_user_and_remote_user_then_remote_only() {
    assert!(matches!(
        FeatureInstallUsers::new(None, Some("vscode")),
        FeatureInstallUsers::RemoteOnly(r) if r == "vscode"
    ));
}

#[test]
fn when_new_with_no_container_user_and_no_remote_user_then_neither_named() {
    assert!(matches!(
        FeatureInstallUsers::new(None, None),
        FeatureInstallUsers::NeitherNamed
    ));
}
