use vstd::prelude::*;

use crate::devcontainer::jsonc::access::member;
use crate::devcontainer::jsonc::document::parse;
use crate::devcontainer::jsonc::grammar::parse_text;
use crate::devcontainer::jsonc::model::{node_value, JsonValue};
use crate::error::{jsonc_error_message, jsonc_message, Error};
use crate::oci::{lossy_utf8, utf8_lossy};
use crate::text::push_str;

verus! {

/// The URL that hands out a pull token for the repository `path` of `registry`.
pub open spec fn token_url_text(registry: Seq<char>, path: Seq<char>) -> Seq<char> {
    "https://"@ + registry + "/token?scope=repository:"@ + path + ":pull&service="@ + registry
}

/// The URL of the manifest `reference` of the repository `path` of `registry`.
pub open spec fn manifest_url_text(registry: Seq<char>, path: Seq<char>, reference: Seq<char>) -> Seq<char> {
    "https://"@ + registry + "/v2/"@ + path + "/manifests/"@ + reference
}

/// The URL of the blob `digest` of the repository `path` of `registry`.
pub open spec fn blob_url_text(registry: Seq<char>, path: Seq<char>, digest: Seq<char>) -> Seq<char> {
    "https://"@ + registry + "/v2/"@ + path + "/blobs/"@ + digest
}

pub fn token_url(registry: &str, path: &str) -> (r: String)
    ensures
        r@ == token_url_text(registry@, path@),
{
    let mut v: Vec<char> = Vec::new();
    push_str(&mut v, "https://");
    push_str(&mut v, registry);
    push_str(&mut v, "/token?scope=repository:");
    push_str(&mut v, path);
    push_str(&mut v, ":pull&service=");
    push_str(&mut v, registry);
    crate::text::string_of(v.as_slice())
}

pub fn manifest_url(registry: &str, path: &str, reference: &str) -> (r: String)
    ensures
        r@ == manifest_url_text(registry@, path@, reference@),
{
    let mut v: Vec<char> = Vec::new();
    push_str(&mut v, "https://");
    push_str(&mut v, registry);
    push_str(&mut v, "/v2/");
    push_str(&mut v, path);
    push_str(&mut v, "/manifests/");
    push_str(&mut v, reference);
    crate::text::string_of(v.as_slice())
}

pub fn blob_url(registry: &str, path: &str, digest: &str) -> (r: String)
    ensures
        r@ == blob_url_text(registry@, path@, digest@),
{
    let mut v: Vec<char> = Vec::new();
    push_str(&mut v, "https://");
    push_str(&mut v, registry);
    push_str(&mut v, "/v2/");
    push_str(&mut v, path);
    push_str(&mut v, "/blobs/");
    push_str(&mut v, digest);
    crate::text::string_of(v.as_slice())
}

/// The string member `token` of the token response whose text is `text`.
pub open spec fn token_in(text: Seq<char>) -> Result<Seq<char>, Seq<char>> {
    match parse_text(text) {
        Err(e) => Err("failed to parse OCI token response: "@ + jsonc_message(e)),
        Ok(d) => match member(node_value(d.root), "token"@) {
            Some(JsonValue::Str(t)) => Ok(t),
            _ => Err("OCI token response missing 'token' field"@),
        },
    }
}

/// The `digest` of the first entry of `layers` in the manifest whose text is `text`;
/// `what` names the manifest in the errors.
pub open spec fn first_layer_digest_in(text: Seq<char>, what: Seq<char>) -> Result<Seq<char>, Seq<char>> {
    match parse_text(text) {
        Err(e) => Err("failed to parse "@ + what + ": "@ + jsonc_message(e)),
        Ok(d) => {
            let missing = Err(what + " missing layers[0].digest"@);
            match member(node_value(d.root), "layers"@) {
                Some(JsonValue::Array(layers)) => if layers.len() > 0 {
                    match member(layers[0], "digest"@) {
                        Some(JsonValue::Str(digest)) => Ok(digest),
                        _ => missing,
                    }
                } else {
                    missing
                },
                _ => missing,
            }
        },
    }
}

pub open spec fn result_view(r: Result<String, Error>) -> Result<Seq<char>, Seq<char>> {
    match r {
        Ok(s) => Ok(s@),
        Err(e) => Err(e@),
    }
}

fn message_with(prefix: &str, middle: &str, rest: &str) -> (r: Error)
    ensures
        r@ == prefix@ + middle@ + rest@,
{
    let mut v: Vec<char> = Vec::new();
    push_str(&mut v, prefix);
    push_str(&mut v, middle);
    push_str(&mut v, rest);
    Error::from_chars(&v)
}

/// The pull token in the body of a token response, its invalid UTF-8 replaced.
pub fn token_from_response(body: &[u8]) -> (r: Result<String, Error>)
    ensures
        result_view(r) == token_in(lossy_utf8(body@)),
{
    let text = utf8_lossy(body);
    proof { reveal_strlit(""); }
    match parse(text.as_str()) {
        Err(e) => {
            let m = jsonc_error_message(e);
            Err(message_with("failed to parse OCI token response: ", m.as_str(), ""))
        },
        Ok(d) => {
            let v = d.value();
            match v.get("token") {
                Some(t) => match t.as_str() {
                    Some(s) => Ok(s.to_owned()),
                    None => Err(Error::new("OCI token response missing 'token' field")),
                },
                None => Err(Error::new("OCI token response missing 'token' field")),
            }
        },
    }
}

/// The digest of the first layer of the manifest in `body`, its invalid UTF-8 replaced;
/// `what` names the manifest in the errors.
pub fn first_layer_digest(body: &[u8], what: &str) -> (r: Result<String, Error>)
    ensures
        result_view(r) == first_layer_digest_in(lossy_utf8(body@), what@),
{
    let text = utf8_lossy(body);
    proof { reveal_strlit(""); }
    match parse(text.as_str()) {
        Err(e) => {
            let m = jsonc_error_message(e);
            let mut v: Vec<char> = Vec::new();
            push_str(&mut v, "failed to parse ");
            push_str(&mut v, what);
            push_str(&mut v, ": ");
            push_str(&mut v, m.as_str());
            Err(Error::from_chars(&v))
        },
        Ok(d) => {
            let v = d.value();
            let layers = match v.get("layers") {
                Some(l) => l,
                None => return Err(message_with(what, " missing layers[0].digest", "")),
            };
            proof { crate::devcontainer::jsonc::model::lemma_array_view(*layers); }
            let items = match layers.as_array() {
                Some(a) => a,
                None => return Err(message_with(what, " missing layers[0].digest", "")),
            };
            if items.len() == 0 {
                return Err(message_with(what, " missing layers[0].digest", ""));
            }
            match items[0].get("digest") {
                Some(x) => match x.as_str() {
                    Some(s) => Ok(s.to_owned()),
                    None => Err(message_with(what, " missing layers[0].digest", "")),
                },
                None => Err(message_with(what, " missing layers[0].digest", "")),
            }
        },
    }
}

} // verus!
