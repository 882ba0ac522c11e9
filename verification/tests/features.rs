use cashyyc::features::FeatureSource;

#[test]
fn parse_remote_oci() {
    assert!(matches!(
        FeatureSource::parse("ghcr.io/devcontainers/features/git:1"),
        Ok(FeatureSource::Oci { .. })
    ));
}

#[test]
fn parse_remote_tarball() {
    assert!(matches!(
        FeatureSource::parse("https://example.com/feature.tgz"),
        Ok(FeatureSource::Tarball(_))
    ));
}

#[test]
fn parse_local() {
    assert!(matches!(
        FeatureSource::parse("./my-feature"),
        Ok(FeatureSource::Local(_))
    ));
}
