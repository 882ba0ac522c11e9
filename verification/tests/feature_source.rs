use std::path::PathBuf;
use cashyyc::features::source::FeatureSource;
use cashyyc::random_string::{generate_random_string, CharacterType};
fn urandom() -> Vec<u8> {
    let state = std::collections::hash_map::RandomState::new();
    let mut out = Vec::new();
    let mut i: u64 = 0;
    while out.len() < 64 {
        let mut h = std::hash::BuildHasher::build_hasher(&state);
        std::hash::Hasher::write_u64(&mut h, i);
        out.extend_from_slice(&std::hash::Hasher::finish(&h).to_le_bytes());
        i += 1;
    }
    out
}

fn random_name() -> String {
    generate_random_string(8, &[CharacterType::Lowercase], "", &urandom())
}

#[test]
fn when_parse_with_oci_ref_then_parses_registry_path_and_version() {
    let registry = format!("{}.example.com", random_name());
    let path = format!("{}/{}", random_name(), random_name());
    let version = random_name();
    let id = format!("{registry}/{path}:{version}");

    let result = FeatureSource::parse(&id).unwrap();
    let FeatureSource::Oci {
        registry: r,
        path: p,
        version: v,
    } = result
    else {
        panic!("expected Oci variant");
    };
    assert_eq!(r, registry);
    assert_eq!(p, path);
    assert_eq!(v, version);
}

#[test]
fn when_parse_with_oci_ref_without_version_then_version_is_latest() {
    let id = format!("{}/{}", random_name(), random_name());

    let result = FeatureSource::parse(&id).unwrap();
    let FeatureSource::Oci { version, .. } = result else {
        panic!("expected Oci variant");
    };
    assert_eq!(version, "latest");
}

#[test]
fn when_parse_with_oci_ref_without_slash_then_returns_error() {
    let id = random_name();
    assert!(FeatureSource::parse(&id).is_err());
}

#[test]
fn when_parse_with_https_url_then_preserves_url_as_tarball() {
    let url = format!("https://{}.example.com/feature.tgz", random_name());

    let result = FeatureSource::parse(&url).unwrap();
    let FeatureSource::Tarball(got) = result else {
        panic!("expected Tarball variant");
    };
    assert_eq!(got, url);
}

#[test]
fn when_parse_with_http_url_then_preserves_url_as_tarball() {
    let url = format!("http://{}.example.com/feature.tgz", random_name());

    let result = FeatureSource::parse(&url).unwrap();
    let FeatureSource::Tarball(got) = result else {
        panic!("expected Tarball variant");
    };
    assert_eq!(got, url);
}

#[test]
fn when_parse_with_relative_path_then_preserves_path_as_local() {
    let name = random_name();
    let id = format!("./{name}");

    let result = FeatureSource::parse(&id).unwrap();
    let FeatureSource::Local(path) = result else {
        panic!("expected Local variant");
    };
    assert_eq!(PathBuf::from(path), PathBuf::from(id));
}

#[test]
fn when_parse_with_absolute_path_then_preserves_path_as_local() {
    let name = random_name();
    let id = format!("/{name}");

    let result = FeatureSource::parse(&id).unwrap();
    let FeatureSource::Local(path) = result else {
        panic!("expected Local variant");
    };
    assert_eq!(PathBuf::from(path), PathBuf::from(id));
}

#[test]
fn when_resolve_with_a_relative_local_path_then_it_is_taken_from_the_config_folder() {
    match FeatureSource::resolve("./my-feature", "/p/.devcontainer").unwrap() {
        FeatureSource::Local(p) => assert_eq!(p, "/p/.devcontainer/./my-feature"),
        _ => panic!("expected a local source"),
    }
    match FeatureSource::resolve("/abs/f", "/p/.devcontainer").unwrap() {
        FeatureSource::Local(p) => assert_eq!(p, "/abs/f"),
        _ => panic!("expected a local source"),
    }
}
