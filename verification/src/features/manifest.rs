use vstd::prelude::*;

use crate::devcontainer::config::{
    opt_bool, opt_bool_of, opt_json, opt_string, opt_string_of, opt_text, opt_value, opt_value_of, string_map,
    string_map_field, string_vec, string_vec_of, texts,
};
use crate::devcontainer::jsonc::access::{member, StringMap};
use crate::devcontainer::jsonc::document::parse;
use crate::devcontainer::jsonc::grammar::parse_text;
use crate::devcontainer::jsonc::model::{lemma_array_view, node_value, JsonValue, Value};
use crate::error::{jsonc_error_message, jsonc_message, Error};
use crate::features::mount::{string_member, FeatureMount};
use crate::text::{chars_of, push_str};

verus! {

/// A feature ready to be installed: where its files were unpacked, the options the
/// configuration gives it, and what its manifest declares.
#[derive(Debug)]
pub struct Feature {
    pub short_id: String,
    pub dir: String,
    pub options: Value,
    pub installs_after: Vec<String>,
    pub container_env: StringMap,
    pub privileged: Option<bool>,
    pub init: Option<bool>,
    pub cap_add: Vec<String>,
    pub security_opt: Vec<String>,
    pub mounts: Vec<FeatureMount>,
    pub entrypoint: Option<String>,
    pub on_create_command: Option<Value>,
    pub update_content_command: Option<Value>,
    pub post_create_command: Option<Value>,
    pub post_start_command: Option<Value>,
    pub post_attach_command: Option<Value>,
}

/// What a feature's `devcontainer-feature.json` declares.
#[derive(Debug)]
pub struct FeatureManifest {
    pub id: String,
    pub installs_after: Vec<String>,
    pub container_env: StringMap,
    pub privileged: Option<bool>,
    pub init: Option<bool>,
    pub cap_add: Vec<String>,
    pub security_opt: Vec<String>,
    pub mounts: Vec<FeatureMount>,
    pub entrypoint: Option<String>,
    pub on_create_command: Option<Value>,
    pub update_content_command: Option<Value>,
    pub post_create_command: Option<Value>,
    pub post_start_command: Option<Value>,
    pub post_attach_command: Option<Value>,
}

/// Whether `v` describes a mount (see `FeatureMount::from_value`).
pub open spec fn mount_valid(v: JsonValue) -> bool {
    let src_ok = match member(v, "source"@) {
        None => true,
        Some(JsonValue::Null) => true,
        Some(JsonValue::Str(_)) => true,
        _ => false,
    };
    string_member(v, "type"@) is Some && string_member(v, "target"@) is Some && src_ok
}

pub open spec fn mounts_valid(v: JsonValue) -> bool {
    match member(v, "mounts"@) {
        None => true,
        Some(JsonValue::Array(items)) => forall|i: int| 0 <= i < items.len() ==> #[trigger] mount_valid(items[i]),
        Some(_) => false,
    }
}

/// `m` is the mount that `v` describes.
pub open spec fn mount_matches(m: FeatureMount, v: JsonValue) -> bool {
    &&& m.mount_type@ == string_member(v, "type"@)->0
    &&& m.target@ == string_member(v, "target"@)->0
    &&& match m.source {
        Some(s) => string_member(v, "source"@) == Some(s@),
        None => string_member(v, "source"@) is None,
    }
}

/// `ms` are the mounts that the manifest `v` lists, one for each entry, in order.
pub open spec fn mounts_match(ms: Seq<FeatureMount>, v: JsonValue) -> bool {
    match member(v, "mounts"@) {
        Some(JsonValue::Array(items)) => ms.len() == items.len() && forall|i: int|
            0 <= i < items.len() ==> #[trigger] mount_matches(ms[i], items[i]),
        _ => ms.len() == 0,
    }
}

pub open spec fn invalid_field(key: Seq<char>) -> Seq<char> {
    "invalid type for field `"@ + key + "`"@
}

/// What is wrong with a manifest, the first thing checked: its `id`, then
/// `mounts`, `installsAfter`, `containerEnv`, `privileged`, `init`, `capAdd`,
/// `securityOpt` and `entrypoint`.
pub open spec fn manifest_error(v: JsonValue) -> Option<Seq<char>> {
    if member(v, "id"@) is None {
        Some("missing field `id`"@)
    } else if !(member(v, "id"@) matches Some(JsonValue::Str(_))) {
        Some(invalid_field("id"@))
    } else if !mounts_valid(v) {
        Some(invalid_field("mounts"@))
    } else if string_vec_of(v, "installsAfter"@) is None {
        Some(invalid_field("installsAfter"@))
    } else if string_map_field(v, "containerEnv"@) is None {
        Some(invalid_field("containerEnv"@))
    } else if opt_bool_of(v, "privileged"@) is None {
        Some(invalid_field("privileged"@))
    } else if opt_bool_of(v, "init"@) is None {
        Some(invalid_field("init"@))
    } else if string_vec_of(v, "capAdd"@) is None {
        Some(invalid_field("capAdd"@))
    } else if string_vec_of(v, "securityOpt"@) is None {
        Some(invalid_field("securityOpt"@))
    } else if opt_string_of(v, "entrypoint"@) is None {
        Some(invalid_field("entrypoint"@))
    } else {
        None
    }
}

/// Each setting of `m` as the valid manifest `v` gives it.
pub open spec fn manifest_matches(m: FeatureManifest, v: JsonValue) -> bool {
    &&& member(v, "id"@) == Some(JsonValue::Str(m.id@))
    &&& texts(m.installs_after@) == string_vec_of(v, "installsAfter"@)->0
    &&& m.container_env.wf() && m.container_env@ == string_map_field(v, "containerEnv"@)->0
    &&& m.privileged == opt_bool_of(v, "privileged"@)->0
    &&& m.init == opt_bool_of(v, "init"@)->0
    &&& texts(m.cap_add@) == string_vec_of(v, "capAdd"@)->0
    &&& texts(m.security_opt@) == string_vec_of(v, "securityOpt"@)->0
    &&& mounts_match(m.mounts@, v)
    &&& opt_text(m.entrypoint) == opt_string_of(v, "entrypoint"@)->0
    &&& opt_json(m.on_create_command) == opt_value_of(v, "onCreateCommand"@)
    &&& opt_json(m.update_content_command) == opt_value_of(v, "updateContentCommand"@)
    &&& opt_json(m.post_create_command) == opt_value_of(v, "postCreateCommand"@)
    &&& opt_json(m.post_start_command) == opt_value_of(v, "postStartCommand"@)
    &&& opt_json(m.post_attach_command) == opt_value_of(v, "postAttachCommand"@)
}

pub open spec fn parse_prefix() -> Seq<char> {
    "failed to parse devcontainer-feature.json: "@
}

fn field_error(key: &str) -> (r: Error)
    ensures
        r@ == parse_prefix() + invalid_field(key@),
{
    let mut v: Vec<char> = Vec::new();
    push_str(&mut v, "failed to parse devcontainer-feature.json: ");
    push_str(&mut v, "invalid type for field `");
    push_str(&mut v, key);
    push_str(&mut v, "`");
    Error::from_chars(&v)
}

/// The mounts that `value` lists under `mounts`, in order.
fn read_mounts(value: &Value) -> (r: Result<Vec<FeatureMount>, Error>)
    ensures
        mounts_valid(value@) ==> (r matches Ok(ms) && mounts_match(ms@, value@)),
        !mounts_valid(value@) ==> (r matches Err(x) && x@ == parse_prefix() + invalid_field("mounts"@)),
{
    let mut mounts: Vec<FeatureMount> = Vec::new();
    match value.get("mounts") {
        None => Ok(mounts),
        Some(v) => {
            proof { lemma_array_view(*v); }
            match v.as_array() {
                Some(items) => {
                    let mut i: usize = 0;
                    while i < items.len()
                        invariant
                            i <= items.len(),
                            member(value@, "mounts"@) == Some(v@),
                            v@ matches JsonValue::Array(x) && x.len() == items.len()
                                && forall|j: int| 0 <= j < items.len() ==> #[trigger] x[j] == items@[j]@,
                            mounts.len() == i,
                            forall|j: int| 0 <= j < i ==> #[trigger] mount_valid(items@[j]@)
                                && mount_matches(mounts@[j], items@[j]@),
                        decreases items.len() - i,
                    {
                        match FeatureMount::from_value(&items[i]) {
                            Some(m) => {
                                assert(mount_valid(items@[i as int]@));
                                mounts.push(m);
                            },
                            None => {
                                proof {
                                    if let JsonValue::Array(x) = v@ {
                                        assert(!mount_valid(x[i as int]));
                                        assert(!mounts_valid(value@));
                                    }
                                }
                                return Err(field_error("mounts"));
                            },
                        }
                        i += 1;
                    }
                    proof {
                        if let JsonValue::Array(x) = v@ {
                            assert forall|j: int| 0 <= j < x.len() implies #[trigger] mount_valid(x[j]) by {
                                assert(mount_valid(items@[j]@));
                            }
                            assert forall|j: int| 0 <= j < x.len() implies #[trigger] mount_matches(mounts@[j], x[j]) by {
                                assert(mount_valid(items@[j]@));
                            }
                        }
                    }
                    Ok(mounts)
                },
                None => Err(field_error("mounts")),
            }
        },
    }
}

impl FeatureManifest {
    /// The manifest in `content`; an error that says what is wrong where it is not
    /// JSON with comments or a setting is missing or of the wrong kind.
    #[verifier::rlimit(40)]
    pub fn parse(content: &str) -> (r: Result<FeatureManifest, Error>)
        ensures
            match parse_text(content@) {
                Err(e) => r matches Err(x) && x@ == parse_prefix() + jsonc_message(e),
                Ok(d) => match manifest_error(node_value(d.root)) {
                    Some(msg) => r matches Err(x) && x@ == parse_prefix() + msg,
                    None => r matches Ok(m) && manifest_matches(m, node_value(d.root)),
                },
            },
    {
        let document = match parse(content) {
            Ok(d) => d,
            Err(e) => {
                let mut v: Vec<char> = Vec::new();
                push_str(&mut v, "failed to parse devcontainer-feature.json: ");
                let m = jsonc_error_message(e);
                push_str(&mut v, m.as_str());
                return Err(Error::from_chars(&v));
            },
        };
        let value = document.value();
        let id = match value.get("id") {
            Some(Value::String(s)) => s.clone(),
            Some(_) => return Err(field_error("id")),
            None => {
                let mut v: Vec<char> = Vec::new();
                push_str(&mut v, "failed to parse devcontainer-feature.json: ");
                push_str(&mut v, "missing field `id`");
                return Err(Error::from_chars(&v));
            },
        };
        let mounts = match read_mounts(&value) {
            Ok(m) => m,
            Err(e) => return Err(e),
        };
        let installs_after = match string_vec(&value, "installsAfter") {
            Some(x) => x,
            None => return Err(field_error("installsAfter")),
        };
        let container_env = match string_map(&value, "containerEnv") {
            Some(x) => x,
            None => return Err(field_error("containerEnv")),
        };
        let privileged = match opt_bool(&value, "privileged") {
            Some(x) => x,
            None => return Err(field_error("privileged")),
        };
        let init = match opt_bool(&value, "init") {
            Some(x) => x,
            None => return Err(field_error("init")),
        };
        let cap_add = match string_vec(&value, "capAdd") {
            Some(x) => x,
            None => return Err(field_error("capAdd")),
        };
        let security_opt = match string_vec(&value, "securityOpt") {
            Some(x) => x,
            None => return Err(field_error("securityOpt")),
        };
        let entrypoint = match opt_string(&value, "entrypoint") {
            Some(x) => x,
            None => return Err(field_error("entrypoint")),
        };
        Ok(FeatureManifest {
            id,
            installs_after,
            container_env,
            privileged,
            init,
            cap_add,
            security_opt,
            mounts,
            entrypoint,
            on_create_command: opt_value(&value, "onCreateCommand"),
            update_content_command: opt_value(&value, "updateContentCommand"),
            post_create_command: opt_value(&value, "postCreateCommand"),
            post_start_command: opt_value(&value, "postStartCommand"),
            post_attach_command: opt_value(&value, "postAttachCommand"),
        })
    }
}

impl Feature {
    /// The feature unpacked into `dir` that `manifest` describes, with the options the
    /// configuration gives it.
    pub fn from_manifest(manifest: FeatureManifest, dir: String, options: Value) -> (r: Feature)
        ensures
            r.short_id == manifest.id,
            r.dir == dir,
            r.options == options,
            r.installs_after == manifest.installs_after,
            r.container_env == manifest.container_env,
            r.privileged == manifest.privileged,
            r.init == manifest.init,
            r.cap_add == manifest.cap_add,
            r.security_opt == manifest.security_opt,
            r.mounts == manifest.mounts,
            r.entrypoint == manifest.entrypoint,
            r.on_create_command == manifest.on_create_command,
            r.update_content_command == manifest.update_content_command,
            r.post_create_command == manifest.post_create_command,
            r.post_start_command == manifest.post_start_command,
            r.post_attach_command == manifest.post_attach_command,
    {
        Feature {
            short_id: manifest.id,
            dir,
            options,
            installs_after: manifest.installs_after,
            container_env: manifest.container_env,
            privileged: manifest.privileged,
            init: manifest.init,
            cap_add: manifest.cap_add,
            security_opt: manifest.security_opt,
            mounts: manifest.mounts,
            entrypoint: manifest.entrypoint,
            on_create_command: manifest.on_create_command,
            update_content_command: manifest.update_content_command,
            post_create_command: manifest.post_create_command,
            post_start_command: manifest.post_start_command,
            post_attach_command: manifest.post_attach_command,
        }
    }
}

} // verus!
