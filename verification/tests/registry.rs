use cashyyc::registry::response::{blob_url, first_layer_digest, manifest_url, token_from_response, token_url};

#[test]
fn when_token_url_then_scope_and_service_name_the_registry() {
    assert_eq!(
        token_url("ghcr.io", "devcontainers/templates"),
        "https://ghcr.io/token?scope=repository:devcontainers/templates:pull&service=ghcr.io"
    );
}

#[test]
fn when_manifest_and_blob_urls_then_they_follow_the_v2_layout() {
    assert_eq!(
        manifest_url("ghcr.io", "devcontainers/features", "latest"),
        "https://ghcr.io/v2/devcontainers/features/manifests/latest"
    );
    assert_eq!(
        blob_url("ghcr.io", "a/b", "sha256:1"),
        "https://ghcr.io/v2/a/b/blobs/sha256:1"
    );
}

#[test]
fn when_token_response_has_token_then_returns_it() {
    assert_eq!(token_from_response(br#"{"token":"abc"}"#).unwrap(), "abc");
}

#[test]
fn when_token_response_lacks_token_then_error_says_so() {
    let e = token_from_response(br#"{"t":"abc"}"#).unwrap_err();
    assert_eq!(e.message(), "OCI token response missing 'token' field");
}

#[test]
fn when_token_response_is_not_json_then_error_names_the_parse() {
    let e = token_from_response(b"nope").unwrap_err();
    assert!(e.message().starts_with("failed to parse OCI token response: "));
}

#[test]
fn when_manifest_has_layers_then_first_digest_is_returned() {
    let body = br#"{"layers":[{"digest":"sha256:aa"},{"digest":"sha256:bb"}]}"#;
    assert_eq!(first_layer_digest(body, "OCI manifest").unwrap(), "sha256:aa");
}

#[test]
fn when_manifest_has_no_layers_then_error_names_the_manifest() {
    let e = first_layer_digest(br#"{"layers":[]}"#, "template manifest").unwrap_err();
    assert_eq!(e.message(), "template manifest missing layers[0].digest");
}
