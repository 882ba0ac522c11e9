use vstd::prelude::*;

use crate::devcontainer::jsonc::access::{last_key_index, member, number_u64, string_map_of, StringMap};
use crate::devcontainer::jsonc::model::{lemma_array_view, lemma_object_view, JsonValue, Value};
use crate::devcontainer::metadata::{metadata_entries, Metadata};
use crate::devcontainer::jsonc::document::parse;
use crate::devcontainer::jsonc::grammar::parse_text;
use crate::devcontainer::jsonc::model::node_value;
use crate::devcontainer::variables::{expand_variables, expanded};
use crate::docker::tag::{file_name, file_name_exec};
use crate::text::{chars_of, decimal, push_decimal_u64, push_str, same_text, string_of, text_lt};

verus! {

/// An `appPort` entry.
#[derive(Debug, PartialEq, Clone)]
pub struct AppPort(pub String);

/// How the user's environment is probed in the container.
#[derive(Debug, PartialEq, Clone, Copy)]
pub enum UserEnvProbe {
    /// The value `none`: no probe.
    NoProbe,
    LoginInteractiveShell,
    InteractiveShell,
    LoginShell,
}

/// The probe a devcontainer.json names.
pub open spec fn probe_named(name: Seq<char>) -> Option<UserEnvProbe> {
    if name == "none"@ {
        Some(UserEnvProbe::NoProbe)
    } else if name == "loginInteractiveShell"@ {
        Some(UserEnvProbe::LoginInteractiveShell)
    } else if name == "interactiveShell"@ {
        Some(UserEnvProbe::InteractiveShell)
    } else if name == "loginShell"@ {
        Some(UserEnvProbe::LoginShell)
    } else {
        None
    }
}

impl UserEnvProbe {
    /// The probe named `name` in a devcontainer.json.
    pub fn from_name(name: &str) -> (r: Option<UserEnvProbe>)
        ensures
            r == probe_named(name@),
    {
        if same_text(name, "none") {
            Some(UserEnvProbe::NoProbe)
        } else if same_text(name, "loginInteractiveShell") {
            Some(UserEnvProbe::LoginInteractiveShell)
        } else if same_text(name, "interactiveShell") {
            Some(UserEnvProbe::InteractiveShell)
        } else if same_text(name, "loginShell") {
            Some(UserEnvProbe::LoginShell)
        } else {
            Option::None
        }
    }
}

/// The lifecycle command that attaching waits for.
#[derive(Debug, PartialEq, Clone, Copy)]
pub enum WaitFor {
    InitializeCommand,
    OnCreateCommand,
    UpdateContentCommand,
    PostCreateCommand,
    PostStartCommand,
    PostAttachCommand,
}

/// Place of a command in the lifecycle chain.
pub open spec fn chain_position(w: WaitFor) -> int {
    match w {
        WaitFor::InitializeCommand => 0,
        WaitFor::OnCreateCommand => 1,
        WaitFor::UpdateContentCommand => 2,
        WaitFor::PostCreateCommand => 3,
        WaitFor::PostStartCommand => 4,
        WaitFor::PostAttachCommand => 5,
    }
}

/// The command a devcontainer.json names for `waitFor`.
pub open spec fn wait_for_named(name: Seq<char>) -> Option<WaitFor> {
    if name == "initializeCommand"@ {
        Some(WaitFor::InitializeCommand)
    } else if name == "onCreateCommand"@ {
        Some(WaitFor::OnCreateCommand)
    } else if name == "updateContentCommand"@ {
        Some(WaitFor::UpdateContentCommand)
    } else if name == "postCreateCommand"@ {
        Some(WaitFor::PostCreateCommand)
    } else if name == "postStartCommand"@ {
        Some(WaitFor::PostStartCommand)
    } else if name == "postAttachCommand"@ {
        Some(WaitFor::PostAttachCommand)
    } else {
        None
    }
}

impl WaitFor {
    fn position(&self) -> (r: u8)
        ensures
            r == chain_position(*self),
    {
        match self {
            WaitFor::InitializeCommand => 0,
            WaitFor::OnCreateCommand => 1,
            WaitFor::UpdateContentCommand => 2,
            WaitFor::PostCreateCommand => 3,
            WaitFor::PostStartCommand => 4,
            WaitFor::PostAttachCommand => 5,
        }
    }

    /// Whether waiting for this command means waiting for `cmd`: `cmd` comes no later
    /// in the lifecycle.
    pub fn waits_for(&self, cmd: &WaitFor) -> (r: bool)
        ensures
            r == (chain_position(*cmd) <= chain_position(*self)),
    {
        cmd.position() <= self.position()
    }

    /// The command named `name` in a devcontainer.json.
    pub fn from_name(name: &str) -> (r: Option<WaitFor>)
        ensures
            r == wait_for_named(name@),
    {
        if same_text(name, "initializeCommand") {
            Some(WaitFor::InitializeCommand)
        } else if same_text(name, "onCreateCommand") {
            Some(WaitFor::OnCreateCommand)
        } else if same_text(name, "updateContentCommand") {
            Some(WaitFor::UpdateContentCommand)
        } else if same_text(name, "postCreateCommand") {
            Some(WaitFor::PostCreateCommand)
        } else if same_text(name, "postStartCommand") {
            Some(WaitFor::PostStartCommand)
        } else if same_text(name, "postAttachCommand") {
            Some(WaitFor::PostAttachCommand)
        } else {
            None
        }
    }
}

/// Waiting for a command means waiting for every command before it: the
/// relation is reflexive and transitive.
pub proof fn law_wait_for_chain(a: WaitFor, b: WaitFor, c: WaitFor)
    ensures
        chain_position(a) <= chain_position(a),
        chain_position(c) <= chain_position(b) && chain_position(b) <= chain_position(a)
            ==> chain_position(c) <= chain_position(a),
{
}

/// Attributes of a forwarded port.
#[derive(Debug, PartialEq, Clone)]
pub struct PortAttributes {
    pub label: Option<String>,
    pub on_auto_forward: Option<String>,
    pub elevate_if_needed: Option<bool>,
}

/// How an image is built from a Dockerfile.
#[derive(Debug, PartialEq, Clone)]
pub struct BuildConfig {
    pub dockerfile: Option<String>,
    pub context: Option<String>,
    pub target: Option<String>,
    /// Build arguments, in order.
    pub args: Option<Vec<(String, String)>>,
    pub cache_from: Option<Vec<String>>,
    pub options: Option<Vec<String>>,
}

pub open spec fn opt_text(o: Option<String>) -> Option<Seq<char>> {
    match o {
        Some(s) => Some(s@),
        None => None,
    }
}

pub open spec fn texts(v: Seq<String>) -> Seq<Seq<char>> {
    Seq::new(v.len(), |i: int| v[i]@)
}

pub open spec fn all_strings(items: Seq<JsonValue>) -> bool {
    forall|i: int| 0 <= i < items.len() ==> #[trigger] items[i] is Str
}

pub open spec fn strings_of(items: Seq<JsonValue>) -> Seq<Seq<char>> {
    Seq::new(items.len(), |i: int| items[i]->Str_0)
}

/// An optional string member: absent or `null` is none; any other non-string is invalid.
pub open spec fn opt_string_of(v: JsonValue, key: Seq<char>) -> Option<Option<Seq<char>>> {
    match member(v, key) {
        None => Some(None),
        Some(JsonValue::Null) => Some(None),
        Some(JsonValue::Str(s)) => Some(Some(s)),
        Some(_) => None,
    }
}

/// A string member that must be there.
pub open spec fn req_string_of(v: JsonValue, key: Seq<char>) -> Option<Seq<char>> {
    match member(v, key) {
        Some(JsonValue::Str(s)) => Some(s),
        _ => None,
    }
}

/// An optional boolean member: absent or `null` is none; any other non-boolean is invalid.
pub open spec fn opt_bool_of(v: JsonValue, key: Seq<char>) -> Option<Option<bool>> {
    match member(v, key) {
        None => Some(None),
        Some(JsonValue::Null) => Some(None),
        Some(JsonValue::Bool(b)) => Some(Some(b)),
        Some(_) => None,
    }
}

/// A member that is a list of strings: absent is empty; anything but an array of
/// strings is invalid.
pub open spec fn string_vec_of(v: JsonValue, key: Seq<char>) -> Option<Seq<Seq<char>>> {
    match member(v, key) {
        None => Some(seq![]),
        Some(JsonValue::Array(items)) => if all_strings(items) {
            Some(strings_of(items))
        } else {
            None
        },
        Some(_) => None,
    }
}

/// A member that is a list: absent is empty; anything but an array is invalid.
pub open spec fn value_vec_of(v: JsonValue, key: Seq<char>) -> Option<Seq<JsonValue>> {
    match member(v, key) {
        None => Some(seq![]),
        Some(JsonValue::Array(items)) => Some(items),
        Some(_) => None,
    }
}

/// A member's value unless it is absent or `null`.
pub open spec fn opt_value_of(v: JsonValue, key: Seq<char>) -> Option<JsonValue> {
    match member(v, key) {
        Some(JsonValue::Null) => None,
        x => x,
    }
}

/// A member that maps names to strings: absent is empty.
pub open spec fn string_map_field(v: JsonValue, key: Seq<char>) -> Option<Map<Seq<char>, Seq<char>>> {
    match member(v, key) {
        None => Some(Map::empty()),
        Some(x) => string_map_of(x),
    }
}

/// A member that is one string or a list of strings: absent or `null` is none.
pub open spec fn opt_string_or_vec_of(v: JsonValue, key: Seq<char>) -> Option<Option<Seq<Seq<char>>>> {
    match member(v, key) {
        None => Some(None),
        Some(JsonValue::Null) => Some(None),
        Some(JsonValue::Str(s)) => Some(Some(seq![s])),
        Some(JsonValue::Array(items)) => if all_strings(items) {
            Some(Some(strings_of(items)))
        } else {
            None
        },
        Some(_) => None,
    }
}

fn strings_from(items: &[Value]) -> (r: Option<Vec<String>>)
    ensures
        ({
            let vs = Seq::new(items.len() as nat, |i: int| items@[i]@);
            if all_strings(vs) {
                r matches Some(x) && texts(x@) == strings_of(vs)
            } else {
                r is None
            }
        }),
{
    let ghost vs = Seq::new(items.len() as nat, |i: int| items@[i]@);
    let mut out: Vec<String> = Vec::new();
    let mut i: usize = 0;
    while i < items.len()
        invariant
            i <= items.len(),
            vs == Seq::new(items.len() as nat, |i: int| items@[i]@),
            out.len() == i,
            forall|j: int| 0 <= j < i ==> #[trigger] vs[j] is Str && out@[j]@ == vs[j]->Str_0,
        decreases items.len() - i,
    {
        match items[i].as_str() {
            Some(s) => out.push(s.to_owned()),
            None => {
                assert(!(vs[i as int] is Str));
                return None;
            },
        }
        i += 1;
    }
    assert(texts(out@) =~= strings_of(vs));
    Some(out)
}

pub fn opt_string(value: &Value, key: &str) -> (r: Option<Option<String>>)
    ensures
        match opt_string_of(value@, key@) {
            Some(o) => r matches Some(x) && opt_text(x) == o,
            None => r is None,
        },
{
    match value.get(key) {
        None => Some(None),
        Some(v) => match v {
            Value::Null => Some(None),
            Value::String(s) => Some(Some(s.clone())),
            _ => None,
        },
    }
}

pub fn req_string(value: &Value, key: &str) -> (r: Option<String>)
    ensures
        match req_string_of(value@, key@) {
            Some(s) => r matches Some(x) && x@ == s,
            None => r is None,
        },
{
    match value.get(key) {
        Some(v) => match v.as_str() {
            Some(s) => Some(s.to_owned()),
            None => None,
        },
        None => None,
    }
}

pub fn opt_bool(value: &Value, key: &str) -> (r: Option<Option<bool>>)
    ensures
        r == opt_bool_of(value@, key@),
{
    match value.get(key) {
        None => Some(None),
        Some(v) => match v {
            Value::Null => Some(None),
            Value::Bool(b) => Some(Some(*b)),
            _ => None,
        },
    }
}

pub fn opt_value(value: &Value, key: &str) -> (r: Option<Value>)
    ensures
        match opt_value_of(value@, key@) {
            Some(x) => r matches Some(y) && y@ == x,
            None => r is None,
        },
{
    match value.get(key) {
        None => None,
        Some(v) => match v {
            Value::Null => None,
            _ => Some(v.clone()),
        },
    }
}

pub fn string_vec(value: &Value, key: &str) -> (r: Option<Vec<String>>)
    ensures
        match string_vec_of(value@, key@) {
            Some(t) => r matches Some(x) && texts(x@) == t,
            None => r is None,
        },
{
    match value.get(key) {
        None => {
            let v: Vec<String> = Vec::new();
            assert(texts(v@) =~= Seq::<Seq<char>>::empty());
            Some(v)
        },
        Some(v) => {
            proof { lemma_array_view(*v); }
            match v.as_array() {
                Some(items) => {
                    proof {
                        if let JsonValue::Array(x) = v@ {
                            assert(x =~= Seq::new(items.len() as nat, |i: int| items@[i]@));
                        }
                    }
                    strings_from(items)
                },
                None => None,
            }
        },
    }
}

pub fn value_vec(value: &Value, key: &str) -> (r: Option<Vec<Value>>)
    ensures
        match value_vec_of(value@, key@) {
            Some(t) => r matches Some(x) && x.len() == t.len() && forall|i: int| 0 <= i < x.len() ==> #[trigger] x@[i]@ == t[i],
            None => r is None,
        },
{
    match value.get(key) {
        None => Some(Vec::new()),
        Some(v) => match v.as_array() {
            Some(items) => {
                let mut out: Vec<Value> = Vec::new();
                let mut i: usize = 0;
                while i < items.len()
                    invariant
                        i <= items.len(),
                        out.len() == i,
                        forall|j: int| 0 <= j < i ==> #[trigger] out@[j]@ == items@[j]@,
                    decreases items.len() - i,
                {
                    out.push(items[i].clone());
                    i += 1;
                }
                Some(out)
            },
            None => None,
        },
    }
}

pub fn string_map(value: &Value, key: &str) -> (r: Option<StringMap>)
    ensures
        match string_map_field(value@, key@) {
            Some(m) => r matches Some(x) && x.wf() && x@ == m,
            None => r is None,
        },
{
    match value.get(key) {
        None => Some(StringMap::new()),
        Some(v) => v.to_string_map(),
    }
}

/// A member that is one string or a list of strings.
pub fn opt_string_or_vec(value: &Value, key: &str) -> (r: Option<Option<Vec<String>>>)
    ensures
        match opt_string_or_vec_of(value@, key@) {
            Some(None) => r == Some(None::<Vec<String>>),
            Some(Some(t)) => r matches Some(Some(x)) && texts(x@) == t,
            None => r is None,
        },
{
    match value.get(key) {
        None => Some(None),
        Some(v) => {
            proof { lemma_array_view(*v); }
            match v {
                Value::Null => Some(None),
                Value::String(s) => {
                    let mut out: Vec<String> = Vec::new();
                    out.push(s.clone());
                    assert(texts(out@) =~= seq![s@]);
                    Some(Some(out))
                },
                Value::Array(items) => {
                    proof {
                        if let JsonValue::Array(x) = v@ {
                            assert(x =~= Seq::new(items.len() as nat, |i: int| items@[i]@));
                        }
                    }
                    match strings_from(items.as_slice()) {
                        Some(out) => Some(Some(out)),
                        None => None,
                    }
                },
                _ => None,
            }
        },
    }
}

/// An `appPort` entry as a port mapping: a string as written, a whole number `n` as
/// `127.0.0.1:n:n`.
pub open spec fn app_port_text(v: JsonValue) -> Option<Seq<char>> {
    match v {
        JsonValue::Str(s) => Some(s),
        JsonValue::Number(m) => match number_u64(m) {
            Some(n) => Some("127.0.0.1:"@ + decimal(n as nat) + ":"@ + decimal(n as nat)),
            None => None,
        },
        _ => None,
    }
}

pub open spec fn all_app_ports(items: Seq<JsonValue>) -> bool {
    forall|i: int| 0 <= i < items.len() ==> #[trigger] app_port_text(items[i]) is Some
}

/// The `appPort` member: absent or `null` is none, an array is one mapping per entry,
/// any other value is one mapping.
pub open spec fn app_ports_of(v: JsonValue) -> Option<Seq<Seq<char>>> {
    match member(v, "appPort"@) {
        None => Some(seq![]),
        Some(JsonValue::Null) => Some(seq![]),
        Some(JsonValue::Array(items)) => if all_app_ports(items) {
            Some(Seq::new(items.len(), |i: int| app_port_text(items[i])->0))
        } else {
            None
        },
        Some(x) => match app_port_text(x) {
            Some(t) => Some(seq![t]),
            None => None,
        },
    }
}

pub open spec fn port_texts(v: Seq<AppPort>) -> Seq<Seq<char>> {
    Seq::new(v.len(), |i: int| v[i].0@)
}

fn app_port_entry(v: &Value) -> (r: Option<AppPort>)
    ensures
        match app_port_text(v@) {
            Some(t) => r matches Some(p) && p.0@ == t,
            None => r is None,
        },
{
    match v {
        Value::String(s) => Some(AppPort(s.clone())),
        Value::Number(_) => match v.as_u64() {
            Some(n) => {
                let mut out: Vec<char> = Vec::new();
                push_str(&mut out, "127.0.0.1:");
                push_decimal_u64(&mut out, n);
                push_str(&mut out, ":");
                push_decimal_u64(&mut out, n);
                Some(AppPort(string_of(out.as_slice())))
            },
            None => None,
        },
        _ => None,
    }
}

/// The port mappings of the `appPort` member.
pub fn app_port(value: &Value) -> (r: Option<Vec<AppPort>>)
    ensures
        match app_ports_of(value@) {
            Some(t) => r matches Some(x) && port_texts(x@) == t,
            None => r is None,
        },
{
    match value.get("appPort") {
        None => {
            let v: Vec<AppPort> = Vec::new();
            assert(port_texts(v@) =~= Seq::<Seq<char>>::empty());
            Some(v)
        },
        Some(v) => {
            proof { lemma_array_view(*v); }
            match v {
                Value::Null => {
                    let e: Vec<AppPort> = Vec::new();
                    assert(port_texts(e@) =~= Seq::<Seq<char>>::empty());
                    Some(e)
                },
                Value::Array(items) => {
                    let ghost vs = Seq::new(items.len() as nat, |i: int| items@[i]@);
                    proof {
                        if let JsonValue::Array(x) = v@ {
                            assert(x =~= vs);
                        }
                    }
                    let mut out: Vec<AppPort> = Vec::new();
                    let mut i: usize = 0;
                    while i < items.len()
                        invariant
                            i <= items.len(),
                            vs == Seq::new(items.len() as nat, |i: int| items@[i]@),
                            out.len() == i,
                            forall|j: int| 0 <= j < i ==> #[trigger] app_port_text(vs[j]) == Some(out@[j].0@),
                            member(value@, "appPort"@) == Some(JsonValue::Array(vs)),
                        decreases items.len() - i,
                    {
                        match app_port_entry(&items[i]) {
                            Some(p) => out.push(p),
                            None => {
                                assert(app_port_text(vs[i as int]) is None);
                                assert(!all_app_ports(vs));
                                return None;
                            },
                        }
                        i += 1;
                    }
                    assert(port_texts(out@) =~= Seq::new(vs.len(), |i: int| app_port_text(vs[i])->0));
                    Some(out)
                },
                _ => match app_port_entry(v) {
                    Some(p) => {
                        let mut out: Vec<AppPort> = Vec::new();
                        out.push(p);
                        assert(port_texts(out@) =~= seq![out@[0].0@]);
                        Some(out)
                    },
                    None => None,
                },
            }
        },
    }
}

/// The `source=...,` part of a mount object: empty where the source is absent,
/// `null` or empty.
pub open spec fn mount_source_part(v: JsonValue) -> Option<Seq<char>> {
    match member(v, "source"@) {
        None => Some(seq![]),
        Some(JsonValue::Null) => Some(seq![]),
        Some(JsonValue::Str(s)) => if s.len() == 0 {
            Some(seq![])
        } else {
            Some("src="@ + s + ","@)
        },
        Some(_) => None,
    }
}

/// A `mounts` entry as a `--mount` argument: a string as written, an object with a
/// `type`, an optional `source` and a `target` as `type=...,src=...,dst=...`.
pub open spec fn mount_text(v: JsonValue) -> Option<Seq<char>> {
    match v {
        JsonValue::Str(s) => Some(s),
        JsonValue::Object(_, _) => match (req_string_of(v, "type"@), mount_source_part(v), req_string_of(v, "target"@)) {
            (Some(t), Some(src), Some(dst)) => Some("type="@ + t + ","@ + src + "dst="@ + dst),
            _ => None,
        },
        _ => None,
    }
}

pub open spec fn all_mounts(items: Seq<JsonValue>) -> bool {
    forall|i: int| 0 <= i < items.len() ==> #[trigger] mount_text(items[i]) is Some
}

/// The `mounts` member: absent is empty; anything but an array of valid entries is invalid.
pub open spec fn mounts_of(v: JsonValue) -> Option<Seq<Seq<char>>> {
    match member(v, "mounts"@) {
        None => Some(seq![]),
        Some(JsonValue::Array(items)) => if all_mounts(items) {
            Some(Seq::new(items.len(), |i: int| mount_text(items[i])->0))
        } else {
            None
        },
        Some(_) => None,
    }
}

fn mount_entry(v: &Value) -> (r: Option<String>)
    ensures
        match mount_text(v@) {
            Some(t) => r matches Some(x) && x@ == t,
            None => r is None,
        },
{
    match v {
        Value::String(s) => Some(s.clone()),
        Value::Object(_) => {
            let mount_type = match req_string(v, "type") {
                Some(t) => t,
                None => return None,
            };
            let mut source: Vec<char> = Vec::new();
            match v.get("source") {
                None => {},
                Some(src) => match src {
                    Value::Null => {},
                    _ => match src.as_str() {
                        Some(text) => {
                            let tc = crate::text::chars_of(text);
                            if tc.len() > 0 {
                                push_str(&mut source, "src=");
                                push_str(&mut source, text);
                                push_str(&mut source, ",");
                            } else {
                                assert(text@ =~= Seq::<char>::empty());
                            }
                        },
                        None => return None,
                    },
                },
            }
            assert(mount_source_part(v@) == Some(source@)) by {
                reveal_strlit("");
            }
            let target = match req_string(v, "target") {
                Some(t) => t,
                None => return None,
            };
            let mut out: Vec<char> = Vec::new();
            push_str(&mut out, "type=");
            push_str(&mut out, mount_type.as_str());
            push_str(&mut out, ",");
            push_all_chars(&mut out, &source);
            push_str(&mut out, "dst=");
            push_str(&mut out, target.as_str());
            Some(string_of(out.as_slice()))
        },
        _ => None,
    }
}

fn push_all_chars(out: &mut Vec<char>, v: &Vec<char>)
    ensures
        final(out)@ == old(out)@ + v@,
{
    crate::text::push_all(out, v.as_slice());
}

/// The `--mount` arguments of the `mounts` member.
pub fn mounts(value: &Value) -> (r: Option<Vec<String>>)
    ensures
        match mounts_of(value@) {
            Some(t) => r matches Some(x) && texts(x@) == t,
            None => r is None,
        },
{
    match value.get("mounts") {
        None => {
            let v: Vec<String> = Vec::new();
            assert(texts(v@) =~= Seq::<Seq<char>>::empty());
            Some(v)
        },
        Some(v) => {
            proof { lemma_array_view(*v); }
            match v.as_array() {
                Some(items) => {
                    let ghost vs = Seq::new(items.len() as nat, |i: int| items@[i]@);
                    proof {
                        if let JsonValue::Array(x) = v@ {
                            assert(x =~= vs);
                        }
                    }
                    let mut out: Vec<String> = Vec::new();
                    let mut i: usize = 0;
                    while i < items.len()
                        invariant
                            i <= items.len(),
                            vs == Seq::new(items.len() as nat, |i: int| items@[i]@),
                            out.len() == i,
                            forall|j: int| 0 <= j < i ==> #[trigger] mount_text(vs[j]) == Some(out@[j]@),
                            member(value@, "mounts"@) == Some(JsonValue::Array(vs)),
                        decreases items.len() - i,
                    {
                        match mount_entry(&items[i]) {
                            Some(m) => out.push(m),
                            None => {
                                assert(mount_text(vs[i as int]) is None);
                                assert(!all_mounts(vs));
                                return None;
                            },
                        }
                        i += 1;
                    }
                    assert(texts(out@) =~= Seq::new(vs.len(), |i: int| mount_text(vs[i])->0));
                    Some(out)
                },
                None => None,
            }
        },
    }
}

pub open spec fn member_keys(members: Seq<(String, Value)>) -> Seq<Seq<char>> {
    Seq::new(members.len(), |k: int| members[k].0@)
}

/// Whether member `i` is the last of its key, the one a lookup by that key finds.
pub open spec fn is_last_member(keys: Seq<Seq<char>>, i: int) -> bool {
    last_key_index(keys, keys[i], keys.len() as int) == Some(i)
}

proof fn lemma_last_key_index_found(keys: Seq<Seq<char>>, key: Seq<char>, n: int)
    requires
        0 <= n <= keys.len(),
    ensures
        last_key_index(keys, key, n) matches Some(i) ==> 0 <= i < n && keys[i] == key
            && forall|j: int| i < j < n ==> keys[j] != key,
        last_key_index(keys, key, n) is None ==> forall|j: int| 0 <= j < n ==> keys[j] != key,
    decreases n,
{
    if n > 0 {
        lemma_last_key_index_found(keys, key, n - 1);
    }
}

pub fn is_last_at(members: &[(String, Value)], i: usize) -> (r: bool)
    requires
        i < members.len(),
    ensures
        r == is_last_member(member_keys(members@), i as int),
{
    let ghost keys = member_keys(members@);
    let ghost n = members.len() as int;
    let mut j = members.len();
    while j > i + 1
        invariant
            i + 1 <= j <= members.len(),
            keys == member_keys(members@),
            n == members.len(),
            last_key_index(keys, keys[i as int], n) == last_key_index(keys, keys[i as int], j as int),
        decreases j,
    {
        if same_text(members[j - 1].0.as_str(), members[i].0.as_str()) {
            proof { lemma_last_key_index_found(keys, keys[i as int], n); }
            return false;
        }
        j -= 1;
    }
    true
}

/// The attributes of a forwarded port as plain values.
pub open spec fn port_attributes_view(p: PortAttributes) -> (Option<Seq<char>>, Option<Seq<char>>, Option<bool>) {
    (opt_text(p.label), opt_text(p.on_auto_forward), p.elevate_if_needed)
}

/// Port attributes given as an object with an optional `label`, `onAutoForward` and
/// `elevateIfNeeded`.
pub open spec fn port_attributes_of(v: JsonValue) -> Option<(Option<Seq<char>>, Option<Seq<char>>, Option<bool>)> {
    if !(v is Object) {
        None
    } else {
        match (opt_string_of(v, "label"@), opt_string_of(v, "onAutoForward"@), opt_bool_of(v, "elevateIfNeeded"@)) {
            (Some(a), Some(b), Some(c)) => Some((a, b, c)),
            _ => None,
        }
    }
}

impl PortAttributes {
    pub fn from_value(value: &Value) -> (r: Option<PortAttributes>)
        ensures
            match port_attributes_of(value@) {
                Some(m) => r matches Some(p) && port_attributes_view(p) == m,
                None => r is None,
            },
    {
        if value.as_object().is_none() {
            return None;
        }
        let label = match opt_string(value, "label") {
            Some(x) => x,
            None => return None,
        };
        let on_auto_forward = match opt_string(value, "onAutoForward") {
            Some(x) => x,
            None => return None,
        };
        let elevate_if_needed = match opt_bool(value, "elevateIfNeeded") {
            Some(x) => x,
            None => return None,
        };
        Some(PortAttributes { label, on_auto_forward, elevate_if_needed })
    }
}

/// What a configuration asks of the host.
#[derive(Debug, PartialEq, Clone)]
pub struct HostRequirements {
    pub cpus: Option<u32>,
    pub memory: Option<String>,
    pub storage: Option<String>,
    pub gpu: Option<Value>,
}

pub open spec fn cpus_of(v: JsonValue) -> Option<Option<u32>> {
    match member(v, "cpus"@) {
        None => Some(None),
        Some(JsonValue::Null) => Some(None),
        Some(JsonValue::Number(m)) => match number_u64(m) {
            Some(n) => if n <= u32::MAX {
                Some(Some(n as u32))
            } else {
                None
            },
            None => None,
        },
        Some(_) => None,
    }
}

pub open spec fn opt_json(o: Option<Value>) -> Option<JsonValue> {
    match o {
        Some(x) => Some(x@),
        None => None,
    }
}

pub open spec fn host_requirements_view(h: HostRequirements) -> (Option<u32>, Option<Seq<char>>, Option<Seq<char>>, Option<JsonValue>) {
    (h.cpus, opt_text(h.memory), opt_text(h.storage), opt_json(h.gpu))
}

/// Host requirements given as an object with optional `cpus`, `memory`, `storage`
/// and `gpu`.
pub open spec fn host_requirements_of(v: JsonValue) -> Option<(Option<u32>, Option<Seq<char>>, Option<Seq<char>>, Option<JsonValue>)> {
    if !(v is Object) {
        None
    } else {
        match (cpus_of(v), opt_string_of(v, "memory"@), opt_string_of(v, "storage"@)) {
            (Some(c), Some(m), Some(s)) => Some((c, m, s, opt_value_of(v, "gpu"@))),
            _ => None,
        }
    }
}

impl HostRequirements {
    pub fn from_value(value: &Value) -> (r: Option<HostRequirements>)
        ensures
            match host_requirements_of(value@) {
                Some(m) => r matches Some(h) && host_requirements_view(h) == m,
                None => r is None,
            },
    {
        if value.as_object().is_none() {
            return None;
        }
        let cpus = match value.get("cpus") {
            None => None,
            Some(v) => match v {
                Value::Null => None,
                _ => match v.as_u64() {
                    Some(n) => if n <= 0xffff_ffff {
                        Some(n as u32)
                    } else {
                        return None;
                    },
                    None => return None,
                },
            },
        };
        let memory = match opt_string(value, "memory") {
            Some(x) => x,
            None => return None,
        };
        let storage = match opt_string(value, "storage") {
            Some(x) => x,
            None => return None,
        };
        Some(HostRequirements { cpus, memory, storage, gpu: opt_value(value, "gpu") })
    }
}

/// Whether a member's key is `k` and its value stands for the object's value at `k`.
pub open spec fn ports_valid(v: JsonValue) -> bool {
    match member(v, "portsAttributes"@) {
        None => true,
        Some(JsonValue::Null) => true,
        Some(JsonValue::Object(keys, values)) => forall|i: int| 0 <= i < values.len() ==> #[trigger] port_attributes_of(values[i]) is Some,
        Some(_) => false,
    }
}

/// A list keyed by the members of the object `o`: each key once, each with what the
/// last member of that key stands for, and every key of `o` there.
pub open spec fn keyed_by<T>(o: JsonValue, x: Seq<(String, T)>, fits: spec_fn(JsonValue, T) -> bool) -> bool {
    &&& forall|a: int, b: int| 0 <= a < b < x.len() ==> #[trigger] x[a].0@ != #[trigger] x[b].0@
    &&& forall|a: int| 0 <= a < x.len() ==> (member(o, #[trigger] x[a].0@) matches Some(m) && fits(m, x[a].1))
    &&& forall|k: Seq<char>| #[trigger] member(o, k) is Some ==> exists|a: int| 0 <= a < x.len() && x[a].0@ == k
}

pub open spec fn port_fits(m: JsonValue, p: PortAttributes) -> bool {
    port_attributes_of(m) == Some(port_attributes_view(p))
}

pub open spec fn env_entry_of(v: JsonValue) -> Option<Option<Seq<char>>> {
    match v {
        JsonValue::Null => Some(None),
        JsonValue::Str(s) => Some(Some(s)),
        _ => None,
    }
}

pub open spec fn env_fits(m: JsonValue, e: Option<String>) -> bool {
    env_entry_of(m) == Some(opt_text(e))
}

pub open spec fn value_fits(m: JsonValue, e: Value) -> bool {
    e@ == m
}

pub open spec fn keyed_ports(o: JsonValue, x: Seq<(String, PortAttributes)>) -> bool {
    keyed_by(o, x, |m: JsonValue, p: PortAttributes| port_fits(m, p))
}

pub open spec fn keyed_env(o: JsonValue, x: Seq<(String, Option<String>)>) -> bool {
    keyed_by(o, x, |m: JsonValue, e: Option<String>| env_fits(m, e))
}

pub open spec fn keyed_values(o: JsonValue, x: Seq<(String, Value)>) -> bool {
    keyed_by(o, x, |m: JsonValue, e: Value| value_fits(m, e))
}

proof fn lemma_keyed_step<T>(keys: Seq<Seq<char>>, x: Seq<(String, T)>, src: Seq<int>, i: int, k: (String, T))
    requires
        0 <= i < keys.len(),
        is_last_member(keys, i),
        k.0@ == keys[i],
        src.len() == x.len(),
        forall|a: int, b: int| 0 <= a < b < x.len() ==> #[trigger] x[a].0@ != #[trigger] x[b].0@,
        forall|a: int| 0 <= a < x.len() ==> 0 <= #[trigger] src[a] < i && is_last_member(keys, src[a]) && x[a].0@ == keys[src[a]],
    ensures
        forall|a: int, b: int| 0 <= a < b < x.push(k).len() ==> #[trigger] x.push(k)[a].0@ != #[trigger] x.push(k)[b].0@,
{
    assert forall|a: int, b: int| 0 <= a < b < x.push(k).len() implies #[trigger] x.push(k)[a].0@ != #[trigger] x.push(k)[b].0@ by {
        if b == x.len() {
            let idx = src[a];
            if keys[idx] == keys[i] {
                assert(last_key_index(keys, keys[i], keys.len() as int) == Some(idx));
            }
        } else {
            assert(x[a].0@ != x[b].0@);
        }
    }
}

proof fn lemma_keyed_final<T>(
    o: JsonValue,
    keys: Seq<Seq<char>>,
    vals: Seq<JsonValue>,
    x: Seq<(String, T)>,
    src: Seq<int>,
    fits: spec_fn(JsonValue, T) -> bool,
)
    requires
        o == JsonValue::Object(keys, vals),
        keys.len() == vals.len(),
        src.len() == x.len(),
        forall|a: int, b: int| 0 <= a < b < x.len() ==> #[trigger] x[a].0@ != #[trigger] x[b].0@,
        forall|a: int| 0 <= a < x.len() ==> 0 <= #[trigger] src[a] < keys.len() && is_last_member(keys, src[a])
            && x[a].0@ == keys[src[a]] && fits(vals[src[a]], x[a].1),
        forall|idx: int| 0 <= idx < keys.len() && is_last_member(keys, idx) ==> exists|a: int| 0 <= a < x.len() && #[trigger] src[a] == idx,
    ensures
        keyed_by(o, x, fits),
{
    assert forall|a: int| 0 <= a < x.len() implies (member(o, #[trigger] x[a].0@) matches Some(m) && fits(m, x[a].1)) by {
        let idx = src[a];
        assert(last_key_index(keys, x[a].0@, keys.len() as int) == Some(idx));
    }
    assert forall|k: Seq<char>| #[trigger] member(o, k) is Some implies exists|a: int| 0 <= a < x.len() && x[a].0@ == k by {
        lemma_last_key_index_found(keys, k, keys.len() as int);
        let idx = last_key_index(keys, k, keys.len() as int)->0;
        assert(is_last_member(keys, idx));
        let a = choose|a: int| 0 <= a < x.len() && #[trigger] src[a] == idx;
        assert(x[a].0@ == k);
    }
}

/// The `portsAttributes` member: none where absent or `null`; invalid unless an
/// object whose every member gives valid attributes.
pub fn ports_attributes(value: &Value) -> (r: Option<Option<Vec<(String, PortAttributes)>>>)
    ensures
        r is Some <==> ports_valid(value@),
        r matches Some(Some(x)) ==> (member(value@, "portsAttributes"@) matches Some(o)
            && keyed_ports(o, x@)),
        r matches Some(None) <==> (member(value@, "portsAttributes"@) is None
            || member(value@, "portsAttributes"@) == Some(JsonValue::Null)),
{
    let v = match value.get("portsAttributes") {
        None => return Some(None),
        Some(v) => v,
    };
    if let Value::Null = v {
        return Some(None);
    }
    proof { lemma_object_view(*v); }
    let members = match v.as_object() {
        Some(m) => m,
        None => return None,
    };
    let ghost keys = member_keys(members@);
    let ghost vals = Seq::new(members.len() as nat, |k: int| members@[k].1@);
    let ghost fits = |m: JsonValue, p: PortAttributes| port_fits(m, p);
    proof {
        if let JsonValue::Object(k, x) = v@ {
            assert(k =~= keys);
            assert(x =~= vals);
        }
    }
    let mut out: Vec<(String, PortAttributes)> = Vec::new();
    let ghost mut src: Seq<int> = Seq::empty();
    let mut i: usize = 0;
    while i < members.len()
        invariant
            i <= members.len(),
            keys == member_keys(members@),
            vals == Seq::new(members.len() as nat, |k: int| members@[k].1@),
            v@ == JsonValue::Object(keys, vals),
            member(value@, "portsAttributes"@) == Some(v@),
            fits == (|m: JsonValue, p: PortAttributes| port_fits(m, p)),
            forall|idx: int| 0 <= idx < i ==> #[trigger] port_attributes_of(vals[idx]) is Some,
            src.len() == out.len(),
            forall|a: int, b: int| 0 <= a < b < out.len() ==> #[trigger] out@[a].0@ != #[trigger] out@[b].0@,
            forall|a: int| 0 <= a < out.len() ==> 0 <= #[trigger] src[a] < i && is_last_member(keys, src[a])
                && out@[a].0@ == keys[src[a]] && fits(vals[src[a]], out@[a].1),
            forall|idx: int| 0 <= idx < i && is_last_member(keys, idx) ==> exists|a: int| 0 <= a < out.len() && #[trigger] src[a] == idx,
        decreases members.len() - i,
    {
        match PortAttributes::from_value(&members[i].1) {
            None => {
                assert(port_attributes_of(vals[i as int]) is None);
                return None;
            },
            Some(p) => {
                if is_last_at(members, i) {
                    let entry = (members[i].0.clone(), p);
                    proof { lemma_keyed_step(keys, out@, src, i as int, entry); }
                    out.push(entry);
                    proof {
                        let old_src = src;
                        src = src.push(i as int);
                        assert forall|idx: int| 0 <= idx < i + 1 && is_last_member(keys, idx) implies exists|a: int|
                            0 <= a < out.len() && #[trigger] src[a] == idx by {
                            if idx == i {
                                assert(src[src.len() - 1] == idx);
                            } else {
                                let a = choose|a: int| 0 <= a < old_src.len() && #[trigger] old_src[a] == idx;
                                assert(src[a] == idx);
                            }
                        }
                    }
                }
            },
        }
        i += 1;
    }
    proof { lemma_keyed_final(v@, keys, vals, out@, src, fits); }
    Some(Some(out))
}


pub open spec fn remote_env_valid(v: JsonValue) -> bool {
    match member(v, "remoteEnv"@) {
        None => true,
        Some(JsonValue::Null) => true,
        Some(JsonValue::Object(keys, values)) => forall|i: int| 0 <= i < values.len() ==> #[trigger] env_entry_of(values[i]) is Some,
        Some(_) => false,
    }
}

/// The `remoteEnv` member: none where absent or `null`; invalid unless an object
/// whose every member is a string or `null` (a variable to unset).
pub fn remote_env(value: &Value) -> (r: Option<Option<Vec<(String, Option<String>)>>>)
    ensures
        r is Some <==> remote_env_valid(value@),
        r matches Some(Some(x)) ==> (member(value@, "remoteEnv"@) matches Some(o)
            && keyed_env(o, x@)),
        r matches Some(None) <==> (member(value@, "remoteEnv"@) is None
            || member(value@, "remoteEnv"@) == Some(JsonValue::Null)),
{
    let v = match value.get("remoteEnv") {
        None => return Some(None),
        Some(v) => v,
    };
    if let Value::Null = v {
        return Some(None);
    }
    proof { lemma_object_view(*v); }
    let members = match v.as_object() {
        Some(m) => m,
        None => return None,
    };
    let ghost keys = member_keys(members@);
    let ghost vals = Seq::new(members.len() as nat, |k: int| members@[k].1@);
    let ghost fits = |m: JsonValue, e: Option<String>| env_fits(m, e);
    proof {
        if let JsonValue::Object(k, x) = v@ {
            assert(k =~= keys);
            assert(x =~= vals);
        }
    }
    let mut out: Vec<(String, Option<String>)> = Vec::new();
    let ghost mut src: Seq<int> = Seq::empty();
    let mut i: usize = 0;
    while i < members.len()
        invariant
            i <= members.len(),
            keys == member_keys(members@),
            vals == Seq::new(members.len() as nat, |k: int| members@[k].1@),
            v@ == JsonValue::Object(keys, vals),
            member(value@, "remoteEnv"@) == Some(v@),
            fits == (|m: JsonValue, e: Option<String>| env_fits(m, e)),
            forall|idx: int| 0 <= idx < i ==> #[trigger] env_entry_of(vals[idx]) is Some,
            src.len() == out.len(),
            forall|a: int, b: int| 0 <= a < b < out.len() ==> #[trigger] out@[a].0@ != #[trigger] out@[b].0@,
            forall|a: int| 0 <= a < out.len() ==> 0 <= #[trigger] src[a] < i && is_last_member(keys, src[a])
                && out@[a].0@ == keys[src[a]] && fits(vals[src[a]], out@[a].1),
            forall|idx: int| 0 <= idx < i && is_last_member(keys, idx) ==> exists|a: int| 0 <= a < out.len() && #[trigger] src[a] == idx,
        decreases members.len() - i,
    {
        let item: Option<Option<String>> = match &members[i].1 {
            Value::Null => Some(None),
            Value::String(t) => Some(Some(t.clone())),
            _ => None,
        };
        match item {
            None => {
                assert(env_entry_of(vals[i as int]) is None);
                return None;
            },
            Some(p) => {
                if is_last_at(members, i) {
                    let entry = (members[i].0.clone(), p);
                    proof { lemma_keyed_step(keys, out@, src, i as int, entry); }
                    out.push(entry);
                    proof {
                        let old_src = src;
                        src = src.push(i as int);
                        assert forall|idx: int| 0 <= idx < i + 1 && is_last_member(keys, idx) implies exists|a: int|
                            0 <= a < out.len() && #[trigger] src[a] == idx by {
                            if idx == i {
                                assert(src[src.len() - 1] == idx);
                            } else {
                                let a = choose|a: int| 0 <= a < old_src.len() && #[trigger] old_src[a] == idx;
                                assert(src[a] == idx);
                            }
                        }
                    }
                }
            },
        }
        i += 1;
    }
    proof { lemma_keyed_final(v@, keys, vals, out@, src, fits); }
    Some(Some(out))
}

/// A member that maps names to values: absent is empty; anything but an object is invalid.
pub fn value_map(value: &Value, key: &str) -> (r: Option<Vec<(String, Value)>>)
    ensures
        r is Some <==> (member(value@, key@) is None || member(value@, key@) matches Some(JsonValue::Object(_, _))),
        r matches Some(x) ==> match member(value@, key@) {
            Some(o) => keyed_values(o, x@),
            None => x.len() == 0,
        },
{
    let v = match value.get(key) {
        None => return Some(Vec::new()),
        Some(v) => v,
    };
    proof { lemma_object_view(*v); }
    let members = match v.as_object() {
        Some(m) => m,
        None => return None,
    };
    let ghost keys = member_keys(members@);
    let ghost vals = Seq::new(members.len() as nat, |k: int| members@[k].1@);
    let ghost fits = |m: JsonValue, e: Value| value_fits(m, e);
    proof {
        if let JsonValue::Object(k, x) = v@ {
            assert(k =~= keys);
            assert(x =~= vals);
        }
    }
    let mut out: Vec<(String, Value)> = Vec::new();
    let ghost mut src: Seq<int> = Seq::empty();
    let mut i: usize = 0;
    while i < members.len()
        invariant
            i <= members.len(),
            keys == member_keys(members@),
            vals == Seq::new(members.len() as nat, |k: int| members@[k].1@),
            v@ == JsonValue::Object(keys, vals),
            member(value@, key@) == Some(v@),
            fits == (|m: JsonValue, e: Value| value_fits(m, e)),
            src.len() == out.len(),
            forall|a: int, b: int| 0 <= a < b < out.len() ==> #[trigger] out@[a].0@ != #[trigger] out@[b].0@,
            forall|a: int| 0 <= a < out.len() ==> 0 <= #[trigger] src[a] < i && is_last_member(keys, src[a])
                && out@[a].0@ == keys[src[a]] && fits(vals[src[a]], out@[a].1),
            forall|idx: int| 0 <= idx < i && is_last_member(keys, idx) ==> exists|a: int| 0 <= a < out.len() && #[trigger] src[a] == idx,
        decreases members.len() - i,
    {
        match Some(members[i].1.clone()) {
            None => {
                return None;
            },
            Some(p) => {
                if is_last_at(members, i) {
                    let entry = (members[i].0.clone(), p);
                    proof { lemma_keyed_step(keys, out@, src, i as int, entry); }
                    out.push(entry);
                    proof {
                        let old_src = src;
                        src = src.push(i as int);
                        assert forall|idx: int| 0 <= idx < i + 1 && is_last_member(keys, idx) implies exists|a: int|
                            0 <= a < out.len() && #[trigger] src[a] == idx by {
                            if idx == i {
                                assert(src[src.len() - 1] == idx);
                            } else {
                                let a = choose|a: int| 0 <= a < old_src.len() && #[trigger] old_src[a] == idx;
                                assert(src[a] == idx);
                            }
                        }
                    }
                }
            },
        }
        i += 1;
    }
    proof { lemma_keyed_final(v@, keys, vals, out@, src, fits); }
    Some(out)
}

/// The properties of a configuration that go into its metadata, in this order.
pub const METADATA_PROPERTIES: [&'static str; 24] = [
    "onCreateCommand",
    "updateContentCommand",
    "postCreateCommand",
    "postStartCommand",
    "postAttachCommand",
    "waitFor",
    "customizations",
    "mounts",
    "containerEnv",
    "containerUser",
    "init",
    "privileged",
    "capAdd",
    "securityOpt",
    "remoteUser",
    "userEnvProbe",
    "remoteEnv",
    "overrideCommand",
    "portsAttributes",
    "otherPortsAttributes",
    "forwardPorts",
    "shutdownAction",
    "updateRemoteUserUID",
    "hostRequirements",
];

/// The metadata properties among the first `n` that `v` has, and their values.
pub open spec fn meta_members(v: JsonValue, n: int) -> (Seq<Seq<char>>, Seq<JsonValue>)
    decreases n,
{
    if n <= 0 {
        (seq![], seq![])
    } else {
        let (k, x) = meta_members(v, n - 1);
        let name = METADATA_PROPERTIES@[n - 1]@;
        match member(v, name) {
            Some(m) => (k.push(name), x.push(m)),
            None => (k, x),
        }
    }
}

/// The object of the metadata properties that `v` has, as written.
pub open spec fn metadata_object(v: JsonValue) -> JsonValue {
    let (k, x) = meta_members(v, 24);
    JsonValue::Object(k, x)
}

/// Settings shared by every kind of configuration.
#[derive(Debug, PartialEq, Clone)]
pub struct CommonConfig {
    pub name: Option<String>,
    pub forward_ports: Vec<Value>,
    /// Attributes by port, each port once.
    pub ports_attributes: Option<Vec<(String, PortAttributes)>>,
    pub other_ports_attributes: Option<PortAttributes>,
    pub override_command: Option<bool>,
    pub initialize_command: Option<Value>,
    pub on_create_command: Option<Value>,
    pub update_content_command: Option<Value>,
    pub post_create_command: Option<Value>,
    pub post_start_command: Option<Value>,
    pub post_attach_command: Option<Value>,
    pub wait_for: Option<WaitFor>,
    pub workspace_folder: Option<String>,
    pub mounts: Vec<String>,
    pub container_env: StringMap,
    pub container_user: Option<String>,
    pub init: Option<bool>,
    pub privileged: Option<bool>,
    pub cap_add: Vec<String>,
    pub security_opt: Vec<String>,
    /// Variables by name, each once; `None` unsets one.
    pub remote_env: Option<Vec<(String, Option<String>)>>,
    pub remote_user: Option<String>,
    pub update_remote_user_uid: Option<bool>,
    pub user_env_probe: Option<UserEnvProbe>,
    /// Feature options by feature reference, each reference once.
    pub features: Vec<(String, Value)>,
    pub override_feature_install_order: Vec<String>,
    pub host_requirements: Option<HostRequirements>,
    /// Tool customizations by tool, each tool once.
    pub customizations: Vec<(String, Value)>,
    pub metadata: Metadata,
}

pub open spec fn opt_attrs_valid(v: JsonValue, key: Seq<char>) -> bool {
    match member(v, key) {
        None => true,
        Some(JsonValue::Null) => true,
        Some(x) => port_attributes_of(x) is Some,
    }
}

pub open spec fn opt_host_valid(v: JsonValue) -> bool {
    match member(v, "hostRequirements"@) {
        None => true,
        Some(JsonValue::Null) => true,
        Some(x) => host_requirements_of(x) is Some,
    }
}

pub open spec fn named_valid(v: JsonValue, key: Seq<char>, probe: bool) -> bool {
    match opt_string_of(v, key) {
        Some(None) => true,
        Some(Some(s)) => if probe {
            probe_named(s) is Some
        } else {
            wait_for_named(s) is Some
        },
        None => false,
    }
}

pub open spec fn value_map_valid(v: JsonValue, key: Seq<char>) -> bool {
    member(v, key) is None || member(v, key) matches Some(JsonValue::Object(_, _))
}

/// Whether `v` is a valid configuration: every setting it has is of its kind.
pub open spec fn common_valid(v: JsonValue) -> bool {
    &&& ports_valid(v)
    &&& opt_attrs_valid(v, "otherPortsAttributes"@)
    &&& named_valid(v, "waitFor"@, false)
    &&& named_valid(v, "userEnvProbe"@, true)
    &&& remote_env_valid(v)
    &&& opt_host_valid(v)
    &&& opt_string_of(v, "name"@) is Some
    &&& value_vec_of(v, "forwardPorts"@) is Some
    &&& opt_bool_of(v, "overrideCommand"@) is Some
    &&& opt_string_of(v, "workspaceFolder"@) is Some
    &&& mounts_of(v) is Some
    &&& string_map_field(v, "containerEnv"@) is Some
    &&& opt_string_of(v, "containerUser"@) is Some
    &&& opt_bool_of(v, "init"@) is Some
    &&& opt_bool_of(v, "privileged"@) is Some
    &&& string_vec_of(v, "capAdd"@) is Some
    &&& string_vec_of(v, "securityOpt"@) is Some
    &&& opt_string_of(v, "remoteUser"@) is Some
    &&& opt_bool_of(v, "updateRemoteUserUID"@) is Some
    &&& value_map_valid(v, "features"@)
    &&& string_vec_of(v, "overrideFeatureInstallOrder"@) is Some
    &&& value_map_valid(v, "customizations"@)
}

pub open spec fn json_list(v: Seq<Value>) -> Seq<JsonValue> {
    Seq::new(v.len(), |i: int| v[i]@)
}

pub open spec fn opt_attrs_view(o: Option<PortAttributes>) -> Option<(Option<Seq<char>>, Option<Seq<char>>, Option<bool>)> {
    match o {
        Some(p) => Some(port_attributes_view(p)),
        None => None,
    }
}

pub open spec fn opt_host_view(o: Option<HostRequirements>) -> Option<(Option<u32>, Option<Seq<char>>, Option<Seq<char>>, Option<JsonValue>)> {
    match o {
        Some(h) => Some(host_requirements_view(h)),
        None => None,
    }
}

pub open spec fn named_of<T>(o: Option<Option<Seq<char>>>, f: spec_fn(Seq<char>) -> Option<T>) -> Option<T> {
    match o {
        Some(Some(s)) => f(s),
        _ => None,
    }
}

pub open spec fn ports_read(v: JsonValue, x: Option<Vec<(String, PortAttributes)>>) -> bool {
    match member(v, "portsAttributes"@) {
        None => x is None,
        Some(JsonValue::Null) => x is None,
        Some(o) => x matches Some(l) && keyed_ports(o, l@),
    }
}

pub open spec fn env_read(v: JsonValue, x: Option<Vec<(String, Option<String>)>>) -> bool {
    match member(v, "remoteEnv"@) {
        None => x is None,
        Some(JsonValue::Null) => x is None,
        Some(o) => x matches Some(l) && keyed_env(o, l@),
    }
}

pub open spec fn keyed_map(v: JsonValue, key: Seq<char>, x: Seq<(String, Value)>) -> bool {
    match member(v, key) {
        None => x.len() == 0,
        Some(o) => keyed_values(o, x),
    }
}

/// What each setting of `c` is, read from the configuration `v`.
pub open spec fn common_matches(c: CommonConfig, v: JsonValue) -> bool {
    &&& opt_text(c.name) == opt_string_of(v, "name"@)->0
    &&& json_list(c.forward_ports@) == value_vec_of(v, "forwardPorts"@)->0
    &&& ports_read(v, c.ports_attributes)
    &&& opt_attrs_view(c.other_ports_attributes) == match member(v, "otherPortsAttributes"@) {
        None => None,
        Some(JsonValue::Null) => None,
        Some(x) => port_attributes_of(x),
    }
    &&& c.override_command == opt_bool_of(v, "overrideCommand"@)->0
    &&& opt_json(c.initialize_command) == opt_value_of(v, "initializeCommand"@)
    &&& opt_json(c.on_create_command) == opt_value_of(v, "onCreateCommand"@)
    &&& opt_json(c.update_content_command) == opt_value_of(v, "updateContentCommand"@)
    &&& opt_json(c.post_create_command) == opt_value_of(v, "postCreateCommand"@)
    &&& opt_json(c.post_start_command) == opt_value_of(v, "postStartCommand"@)
    &&& opt_json(c.post_attach_command) == opt_value_of(v, "postAttachCommand"@)
    &&& c.wait_for == named_of(opt_string_of(v, "waitFor"@), |s: Seq<char>| wait_for_named(s))
    &&& opt_text(c.workspace_folder) == opt_string_of(v, "workspaceFolder"@)->0
    &&& texts(c.mounts@) == mounts_of(v)->0
    &&& c.container_env.wf() && c.container_env@ == string_map_field(v, "containerEnv"@)->0
    &&& opt_text(c.container_user) == opt_string_of(v, "containerUser"@)->0
    &&& c.init == opt_bool_of(v, "init"@)->0
    &&& c.privileged == opt_bool_of(v, "privileged"@)->0
    &&& texts(c.cap_add@) == string_vec_of(v, "capAdd"@)->0
    &&& texts(c.security_opt@) == string_vec_of(v, "securityOpt"@)->0
    &&& env_read(v, c.remote_env)
    &&& opt_text(c.remote_user) == opt_string_of(v, "remoteUser"@)->0
    &&& c.update_remote_user_uid == opt_bool_of(v, "updateRemoteUserUID"@)->0
    &&& c.user_env_probe == named_of(opt_string_of(v, "userEnvProbe"@), |s: Seq<char>| probe_named(s))
    &&& keyed_map(v, "features"@, c.features@)
    &&& texts(c.override_feature_install_order@) == string_vec_of(v, "overrideFeatureInstallOrder"@)->0
    &&& opt_host_view(c.host_requirements) == match member(v, "hostRequirements"@) {
        None => None,
        Some(JsonValue::Null) => None,
        Some(x) => host_requirements_of(x),
    }
    &&& keyed_map(v, "customizations"@, c.customizations@)
    &&& c.metadata@ == metadata_entries(metadata_object(v))
}

/// The metadata object of a configuration: its metadata properties as written.
fn metadata_value(value: &Value) -> (r: Value)
    ensures
        r@ == metadata_object(value@),
{
    let mut members: Vec<(String, Value)> = Vec::new();
    let mut i: usize = 0;
    while i < 24
        invariant
            i <= 24,
            ({
                let (k, x) = meta_members(value@, i as int);
                &&& members.len() == k.len()
                &&& k.len() == x.len()
                &&& forall|j: int| 0 <= j < members.len() ==> #[trigger] members@[j].0@ == k[j] && members@[j].1@ == x[j]
            }),
        decreases 24 - i,
    {
        let name = METADATA_PROPERTIES[i];
        match value.get(name) {
            Some(v) => {
                members.push((name.to_owned(), v.clone()));
            },
            None => {},
        }
        i += 1;
    }
    let r = Value::Object(members);
    proof {
        crate::devcontainer::jsonc::model::lemma_object_view(r);
        let (k, x) = meta_members(value@, 24);
        if let JsonValue::Object(rk, rx) = r@ {
            assert(rk =~= k);
            assert(rx =~= x);
        }
    }
    r
}

impl CommonConfig {
    /// The shared settings of a configuration; `None` where one of them is not of
    /// its kind.
    #[verifier::rlimit(40)]
    pub fn from_value(value: &Value) -> (r: Option<CommonConfig>)
        ensures
            r is Some <==> common_valid(value@),
            r matches Some(c) ==> common_matches(c, value@),
    {
        let ports_attributes = match ports_attributes(value) {
            Some(p) => p,
            None => return None,
        };
        let other_ports_attributes = match value.get("otherPortsAttributes") {
            None => None,
            Some(v) => match v {
                Value::Null => None,
                _ => match PortAttributes::from_value(v) {
                    Some(p) => Some(p),
                    None => return None,
                },
            },
        };
        let wait_for = match opt_string(value, "waitFor") {
            None => return None,
            Some(None) => None,
            Some(Some(s)) => match WaitFor::from_name(s.as_str()) {
                Some(w) => Some(w),
                None => return None,
            },
        };
        let user_env_probe = match opt_string(value, "userEnvProbe") {
            None => return None,
            Some(None) => None,
            Some(Some(s)) => match UserEnvProbe::from_name(s.as_str()) {
                Some(p) => Some(p),
                None => return None,
            },
        };
        let remote_env = match remote_env(value) {
            Some(e) => e,
            None => return None,
        };
        let host_requirements = match value.get("hostRequirements") {
            None => None,
            Some(v) => match v {
                Value::Null => None,
                _ => match HostRequirements::from_value(v) {
                    Some(h) => Some(h),
                    None => return None,
                },
            },
        };
        let name = match opt_string(value, "name") { Some(x) => x, None => return None };
        let forward_ports = match value_vec(value, "forwardPorts") { Some(x) => x, None => return None };
        let override_command = match opt_bool(value, "overrideCommand") { Some(x) => x, None => return None };
        let workspace_folder = match opt_string(value, "workspaceFolder") { Some(x) => x, None => return None };
        let mounts = match mounts(value) { Some(x) => x, None => return None };
        let container_env = match string_map(value, "containerEnv") { Some(x) => x, None => return None };
        let container_user = match opt_string(value, "containerUser") { Some(x) => x, None => return None };
        let init = match opt_bool(value, "init") { Some(x) => x, None => return None };
        let privileged = match opt_bool(value, "privileged") { Some(x) => x, None => return None };
        let cap_add = match string_vec(value, "capAdd") { Some(x) => x, None => return None };
        let security_opt = match string_vec(value, "securityOpt") { Some(x) => x, None => return None };
        let remote_user = match opt_string(value, "remoteUser") { Some(x) => x, None => return None };
        let update_remote_user_uid = match opt_bool(value, "updateRemoteUserUID") { Some(x) => x, None => return None };
        let features = match value_map(value, "features") { Some(x) => x, None => return None };
        let override_feature_install_order = match string_vec(value, "overrideFeatureInstallOrder") {
            Some(x) => x,
            None => return None,
        };
        let customizations = match value_map(value, "customizations") { Some(x) => x, None => return None };
        let metadata = Metadata::of(metadata_value(value));
        let c = CommonConfig {
            name,
            forward_ports,
            ports_attributes,
            other_ports_attributes,
            override_command,
            initialize_command: opt_value(value, "initializeCommand"),
            on_create_command: opt_value(value, "onCreateCommand"),
            update_content_command: opt_value(value, "updateContentCommand"),
            post_create_command: opt_value(value, "postCreateCommand"),
            post_start_command: opt_value(value, "postStartCommand"),
            post_attach_command: opt_value(value, "postAttachCommand"),
            wait_for,
            workspace_folder,
            mounts,
            container_env,
            container_user,
            init,
            privileged,
            cap_add,
            security_opt,
            remote_env,
            remote_user,
            update_remote_user_uid,
            user_env_probe,
            features,
            override_feature_install_order,
            host_requirements,
            customizations,
            metadata,
        };
        proof {
            let v = value@;
            assert(opt_text(c.name) == opt_string_of(v, "name"@)->0);
            assert(json_list(c.forward_ports@) == value_vec_of(v, "forwardPorts"@)->0);
            assert(ports_read(v, c.ports_attributes));
            assert(c.override_command == opt_bool_of(v, "overrideCommand"@)->0);
            assert(opt_json(c.initialize_command) == opt_value_of(v, "initializeCommand"@));
            assert(c.wait_for == named_of(opt_string_of(v, "waitFor"@), |s: Seq<char>| wait_for_named(s)));
            assert(texts(c.mounts@) == mounts_of(v)->0);
            assert(c.container_env.wf() && c.container_env@ == string_map_field(v, "containerEnv"@)->0);
            assert(env_read(v, c.remote_env));
            assert(c.user_env_probe == named_of(opt_string_of(v, "userEnvProbe"@), |s: Seq<char>| probe_named(s)));
            assert(keyed_map(v, "features"@, c.features@));
            assert(keyed_map(v, "customizations"@, c.customizations@));
            assert(c.metadata@ == metadata_entries(metadata_object(v)));
        }
        Some(c)
    }
}

/// Build arguments in the order of their names, as the map `m` has them.
pub open spec fn sorted_pairs(l: Seq<(String, String)>, m: Map<Seq<char>, Seq<char>>) -> bool {
    &&& forall|i: int| 0 <= i < l.len() - 1 ==> text_lt(#[trigger] l[i].0@, l[i + 1].0@)
    &&& forall|i: int| 0 <= i < l.len() ==> m.contains_key(#[trigger] l[i].0@) && m[l[i].0@] == l[i].1@
    &&& forall|k: Seq<char>| #[trigger] m.contains_key(k) ==> exists|i: int| 0 <= i < l.len() && l[i].0@ == k
}

pub open spec fn opt_texts(o: Option<Vec<String>>) -> Option<Seq<Seq<char>>> {
    match o {
        Some(v) => Some(texts(v@)),
        None => None,
    }
}

pub open spec fn build_valid(v: JsonValue) -> bool {
    &&& v is Object
    &&& opt_string_of(v, "dockerfile"@) is Some
    &&& opt_string_of(v, "context"@) is Some
    &&& opt_string_of(v, "target"@) is Some
    &&& string_map_field(v, "args"@) is Some
    &&& opt_string_or_vec_of(v, "cacheFrom"@) is Some
    &&& string_vec_of(v, "options"@) is Some
}

pub open spec fn build_matches(b: BuildConfig, v: JsonValue) -> bool {
    &&& opt_text(b.dockerfile) == opt_string_of(v, "dockerfile"@)->0
    &&& opt_text(b.context) == opt_string_of(v, "context"@)->0
    &&& opt_text(b.target) == opt_string_of(v, "target"@)->0
    &&& b.args matches Some(a) && sorted_pairs(a@, string_map_field(v, "args"@)->0)
    &&& opt_texts(b.cache_from) == opt_string_or_vec_of(v, "cacheFrom"@)->0
    &&& opt_texts(b.options) == Some(string_vec_of(v, "options"@)->0)
}

impl BuildConfig {
    /// The build settings of a `build` object.
    pub fn from_value(value: &Value) -> (r: Option<BuildConfig>)
        ensures
            r is Some <==> build_valid(value@),
            r matches Some(b) ==> build_matches(b, value@),
    {
        if value.as_object().is_none() {
            return None;
        }
        let dockerfile = match opt_string(value, "dockerfile") { Some(x) => x, None => return None };
        let context = match opt_string(value, "context") { Some(x) => x, None => return None };
        let target = match opt_string(value, "target") { Some(x) => x, None => return None };
        let map = match string_map(value, "args") { Some(x) => x, None => return None };
        let cache_from = match opt_string_or_vec(value, "cacheFrom") { Some(x) => x, None => return None };
        let options = match string_vec(value, "options") { Some(x) => x, None => return None };
        let entries = map.entries();
        let mut args: Vec<(String, String)> = Vec::new();
        let mut i: usize = 0;
        while i < entries.len()
            invariant
                i <= entries.len(),
                entries.len() == map.listing().len(),
                forall|j: int| 0 <= j < entries.len() ==> (#[trigger] entries@[j].0@, entries@[j].1@) == map.listing()[j],
                args.len() == i,
                forall|j: int| 0 <= j < i ==> #[trigger] args@[j].0@ == entries@[j].0@ && args@[j].1@ == entries@[j].1@,
            decreases entries.len() - i,
        {
            args.push((entries[i].0.clone(), entries[i].1.clone()));
            i += 1;
        }
        proof {
            map.lemma_listing();
            assert forall|j: int| 0 <= j < args.len() - 1 implies text_lt(#[trigger] args@[j].0@, args@[j + 1].0@) by {
                let _ = entries@[j];
                let _ = entries@[j + 1];
                assert(text_lt(map.listing()[j].0, map.listing()[j + 1].0));
            }
            assert forall|j: int| 0 <= j < args.len() implies map@.contains_key(#[trigger] args@[j].0@) && map@[args@[j].0@] == args@[j].1@ by {
                let _ = entries@[j];
                assert(map@.contains_key(map.listing()[j].0) && map@[map.listing()[j].0] == map.listing()[j].1);
            }
            assert forall|k: Seq<char>| #[trigger] map@.contains_key(k) implies exists|j: int| 0 <= j < args.len() && args@[j].0@ == k by {
                let j = choose|j: int| 0 <= j < map.listing().len() && #[trigger] map.listing()[j].0 == k;
                let _ = entries@[j];
                assert(args@[j].0@ == k);
            }
        }
        Some(BuildConfig { dockerfile, context, target, args: Some(args), cache_from, options: Some(options) })
    }
}

/// A configuration that runs services of a Docker Compose project.
#[derive(Debug, PartialEq, Clone)]
pub struct DockerComposeConfig {
    pub docker_compose_file: Vec<String>,
    pub service: String,
    pub workspace_folder: String,
    pub run_services: Vec<String>,
    pub shutdown_action: Option<String>,
    pub common: CommonConfig,
}

/// A configuration that builds its image from a Dockerfile named by `dockerFile`.
#[derive(Debug, PartialEq, Clone)]
pub struct DockerfileConfig {
    pub docker_file: String,
    pub context: Option<String>,
    pub build: Option<BuildConfig>,
    pub app_port: Vec<AppPort>,
    pub run_args: Vec<String>,
    pub workspace_mount: Option<String>,
    pub shutdown_action: Option<String>,
    pub common: CommonConfig,
}

/// A configuration that builds its image by a `build` object.
#[derive(Debug, PartialEq, Clone)]
pub struct DockerfileBuildConfig {
    pub build: BuildConfig,
    pub app_port: Vec<AppPort>,
    pub run_args: Vec<String>,
    pub workspace_mount: Option<String>,
    pub shutdown_action: Option<String>,
    pub common: CommonConfig,
}

/// A configuration that runs an image.
#[derive(Debug, PartialEq, Clone)]
pub struct ImageConfig {
    pub image: String,
    pub app_port: Vec<AppPort>,
    pub run_args: Vec<String>,
    pub workspace_mount: Option<String>,
    pub shutdown_action: Option<String>,
    pub common: CommonConfig,
}

/// A devcontainer.json, by how its container is made.
#[derive(Debug, PartialEq, Clone)]
pub enum DevcontainerConfig {
    DockerCompose(DockerComposeConfig),
    Dockerfile(DockerfileConfig),
    DockerfileBuild(DockerfileBuildConfig),
    Image(ImageConfig),
}

/// The settings that every container kind reads: ports, run arguments, mount and
/// shutdown action.
pub open spec fn run_settings_valid(v: JsonValue) -> bool {
    &&& app_ports_of(v) is Some
    &&& string_vec_of(v, "runArgs"@) is Some
    &&& opt_string_of(v, "workspaceMount"@) is Some
    &&& opt_string_of(v, "shutdownAction"@) is Some
}

pub open spec fn run_settings_match(app_port: Seq<AppPort>, run_args: Seq<String>, mount: Option<String>, shutdown: Option<String>, v: JsonValue) -> bool {
    &&& port_texts(app_port) == app_ports_of(v)->0
    &&& texts(run_args) == string_vec_of(v, "runArgs"@)->0
    &&& opt_text(mount) == opt_string_of(v, "workspaceMount"@)->0
    &&& opt_text(shutdown) == opt_string_of(v, "shutdownAction"@)->0
}

pub open spec fn compose_valid(v: JsonValue) -> bool {
    &&& opt_string_or_vec_of(v, "dockerComposeFile"@) matches Some(Some(_))
    &&& req_string_of(v, "service"@) is Some
    &&& req_string_of(v, "workspaceFolder"@) is Some
    &&& string_vec_of(v, "runServices"@) is Some
    &&& opt_string_of(v, "shutdownAction"@) is Some
    &&& common_valid(v)
}

pub open spec fn compose_matches(c: DockerComposeConfig, v: JsonValue) -> bool {
    &&& Some(Some(texts(c.docker_compose_file@))) == opt_string_or_vec_of(v, "dockerComposeFile"@)
    &&& c.service@ == req_string_of(v, "service"@)->0
    &&& c.workspace_folder@ == req_string_of(v, "workspaceFolder"@)->0
    &&& texts(c.run_services@) == string_vec_of(v, "runServices"@)->0
    &&& opt_text(c.shutdown_action) == opt_string_of(v, "shutdownAction"@)->0
    &&& common_matches(c.common, v)
}

pub open spec fn dockerfile_build_valid(v: JsonValue) -> bool {
    match member(v, "build"@) {
        None => true,
        Some(JsonValue::Null) => true,
        Some(b) => build_valid(b),
    }
}

pub open spec fn dockerfile_valid(v: JsonValue) -> bool {
    &&& dockerfile_build_valid(v)
    &&& req_string_of(v, "dockerFile"@) is Some
    &&& opt_string_of(v, "context"@) is Some
    &&& run_settings_valid(v)
    &&& common_valid(v)
}

pub open spec fn dockerfile_matches(c: DockerfileConfig, v: JsonValue) -> bool {
    &&& c.docker_file@ == req_string_of(v, "dockerFile"@)->0
    &&& opt_text(c.context) == opt_string_of(v, "context"@)->0
    &&& match member(v, "build"@) {
        None => c.build is None,
        Some(JsonValue::Null) => c.build is None,
        Some(b) => c.build matches Some(x) && build_matches(x, b),
    }
    &&& run_settings_match(c.app_port@, c.run_args@, c.workspace_mount, c.shutdown_action, v)
    &&& common_matches(c.common, v)
}

pub open spec fn build_variant_valid(v: JsonValue) -> bool {
    &&& member(v, "build"@) matches Some(b) && build_valid(b)
    &&& run_settings_valid(v)
    &&& common_valid(v)
}

pub open spec fn build_variant_matches(c: DockerfileBuildConfig, v: JsonValue) -> bool {
    &&& build_matches(c.build, member(v, "build"@)->0)
    &&& run_settings_match(c.app_port@, c.run_args@, c.workspace_mount, c.shutdown_action, v)
    &&& common_matches(c.common, v)
}

pub open spec fn image_valid(v: JsonValue) -> bool {
    &&& req_string_of(v, "image"@) is Some
    &&& run_settings_valid(v)
    &&& common_valid(v)
}

pub open spec fn image_matches(c: ImageConfig, v: JsonValue) -> bool {
    &&& c.image@ == req_string_of(v, "image"@)->0
    &&& run_settings_match(c.app_port@, c.run_args@, c.workspace_mount, c.shutdown_action, v)
    &&& common_matches(c.common, v)
}

impl DockerComposeConfig {
    pub fn from_value(value: &Value) -> (r: Option<DockerComposeConfig>)
        ensures
            r is Some <==> compose_valid(value@),
            r matches Some(c) ==> compose_matches(c, value@),
    {
        let docker_compose_file = match opt_string_or_vec(value, "dockerComposeFile") {
            Some(Some(x)) => x,
            _ => return None,
        };
        let service = match req_string(value, "service") { Some(x) => x, None => return None };
        let workspace_folder = match req_string(value, "workspaceFolder") { Some(x) => x, None => return None };
        let run_services = match string_vec(value, "runServices") { Some(x) => x, None => return None };
        let shutdown_action = match opt_string(value, "shutdownAction") { Some(x) => x, None => return None };
        let common = match CommonConfig::from_value(value) { Some(x) => x, None => return None };
        Some(DockerComposeConfig { docker_compose_file, service, workspace_folder, run_services, shutdown_action, common })
    }
}

impl DockerfileConfig {
    pub fn from_value(value: &Value) -> (r: Option<DockerfileConfig>)
        ensures
            r is Some <==> dockerfile_valid(value@),
            r matches Some(c) ==> dockerfile_matches(c, value@),
    {
        let build = match value.get("build") {
            None => None,
            Some(v) => match v {
                Value::Null => None,
                _ => match BuildConfig::from_value(v) {
                    Some(b) => Some(b),
                    None => return None,
                },
            },
        };
        let docker_file = match req_string(value, "dockerFile") { Some(x) => x, None => return None };
        let context = match opt_string(value, "context") { Some(x) => x, None => return None };
        let app_port = match app_port(value) { Some(x) => x, None => return None };
        let run_args = match string_vec(value, "runArgs") { Some(x) => x, None => return None };
        let workspace_mount = match opt_string(value, "workspaceMount") { Some(x) => x, None => return None };
        let shutdown_action = match opt_string(value, "shutdownAction") { Some(x) => x, None => return None };
        let common = match CommonConfig::from_value(value) { Some(x) => x, None => return None };
        Some(DockerfileConfig { docker_file, context, build, app_port, run_args, workspace_mount, shutdown_action, common })
    }
}

impl DockerfileBuildConfig {
    pub fn from_value(value: &Value) -> (r: Option<DockerfileBuildConfig>)
        ensures
            r is Some <==> build_variant_valid(value@),
            r matches Some(c) ==> build_variant_matches(c, value@),
    {
        let build = match value.get("build") {
            Some(v) => match BuildConfig::from_value(v) {
                Some(b) => b,
                None => return None,
            },
            None => return None,
        };
        let app_port = match app_port(value) { Some(x) => x, None => return None };
        let run_args = match string_vec(value, "runArgs") { Some(x) => x, None => return None };
        let workspace_mount = match opt_string(value, "workspaceMount") { Some(x) => x, None => return None };
        let shutdown_action = match opt_string(value, "shutdownAction") { Some(x) => x, None => return None };
        let common = match CommonConfig::from_value(value) { Some(x) => x, None => return None };
        Some(DockerfileBuildConfig { build, app_port, run_args, workspace_mount, shutdown_action, common })
    }
}

impl ImageConfig {
    pub fn from_value(value: &Value) -> (r: Option<ImageConfig>)
        ensures
            r is Some <==> image_valid(value@),
            r matches Some(c) ==> image_matches(c, value@),
    {
        let image = match req_string(value, "image") { Some(x) => x, None => return None };
        let app_port = match app_port(value) { Some(x) => x, None => return None };
        let run_args = match string_vec(value, "runArgs") { Some(x) => x, None => return None };
        let workspace_mount = match opt_string(value, "workspaceMount") { Some(x) => x, None => return None };
        let shutdown_action = match opt_string(value, "shutdownAction") { Some(x) => x, None => return None };
        let common = match CommonConfig::from_value(value) { Some(x) => x, None => return None };
        Some(ImageConfig { image, app_port, run_args, workspace_mount, shutdown_action, common })
    }
}

/// The kind of container a configuration asks for, by the first of `dockerComposeFile`,
/// `dockerFile`, `build` and `image` it has, and whether it is valid as that kind.
pub open spec fn config_matches(r: Option<DevcontainerConfig>, v: JsonValue) -> bool {
    if member(v, "dockerComposeFile"@) is Some {
        if compose_valid(v) { r matches Some(DevcontainerConfig::DockerCompose(c)) && compose_matches(c, v) } else { r is None }
    } else if member(v, "dockerFile"@) is Some {
        if dockerfile_valid(v) { r matches Some(DevcontainerConfig::Dockerfile(c)) && dockerfile_matches(c, v) } else { r is None }
    } else if member(v, "build"@) is Some {
        if build_variant_valid(v) { r matches Some(DevcontainerConfig::DockerfileBuild(c)) && build_variant_matches(c, v) } else { r is None }
    } else if member(v, "image"@) is Some {
        if image_valid(v) { r matches Some(DevcontainerConfig::Image(c)) && image_matches(c, v) } else { r is None }
    } else {
        r is None
    }
}

/// The configuration a devcontainer.json gives; `None` where it is not JSON with
/// comments, names no container kind, or is not valid as the kind it names.
pub fn parse_config(content: &str) -> (r: Option<DevcontainerConfig>)
    ensures
        match parse_text(content@) {
            Ok(d) => config_matches(r, node_value(d.root)),
            Err(_) => r is None,
        },
{
    let document = match parse(content) {
        Ok(d) => d,
        Err(_) => return None,
    };
    let value = document.value();
    if value.get("dockerComposeFile").is_some() {
        match DockerComposeConfig::from_value(&value) {
            Some(c) => Some(DevcontainerConfig::DockerCompose(c)),
            None => None,
        }
    } else if value.get("dockerFile").is_some() {
        match DockerfileConfig::from_value(&value) {
            Some(c) => Some(DevcontainerConfig::Dockerfile(c)),
            None => None,
        }
    } else if value.get("build").is_some() {
        match DockerfileBuildConfig::from_value(&value) {
            Some(c) => Some(DevcontainerConfig::DockerfileBuild(c)),
            None => None,
        }
    } else if value.get("image").is_some() {
        match ImageConfig::from_value(&value) {
            Some(c) => Some(DevcontainerConfig::Image(c)),
            None => None,
        }
    } else {
        None
    }
}

pub open spec fn common_of(c: DevcontainerConfig) -> CommonConfig {
    match c {
        DevcontainerConfig::Image(x) => x.common,
        DevcontainerConfig::Dockerfile(x) => x.common,
        DevcontainerConfig::DockerfileBuild(x) => x.common,
        DevcontainerConfig::DockerCompose(x) => x.common,
    }
}

/// The folder in the container for the workspace where none is configured.
pub open spec fn default_workspace_folder(cwd: Seq<char>) -> Seq<char> {
    "/workspaces/"@ + match file_name(cwd) {
        Some(n) => n,
        None => seq![],
    }
}

/// The folder of the workspace in the container for `c` opened in `cwd`: the
/// configured one (a Compose configuration's own) or `/workspaces/` and the name of
/// `cwd`, its variables expanded with the local environment `local_env`.
pub open spec fn workspace_folder_of(c: DevcontainerConfig, cwd: Seq<char>, local_env: Seq<(String, String)>) -> Seq<char> {
    let default = default_workspace_folder(cwd);
    let raw = match c {
        DevcontainerConfig::DockerCompose(x) => x.workspace_folder@,
        _ => match common_of(c).workspace_folder {
            Some(w) => w@,
            None => default,
        },
    };
    expanded(raw, cwd, default, Seq::empty(), local_env)
}

impl DevcontainerConfig {
    /// Whether the environment of its shared settings is well formed.
    pub open spec fn common_env_wf(&self) -> bool {
        common_of(*self).container_env.wf()
    }

    /// The shared settings.
    pub fn common(&self) -> (r: &CommonConfig)
        ensures
            *r == common_of(*self),
    {
        match self {
            DevcontainerConfig::Image(c) => &c.common,
            DevcontainerConfig::Dockerfile(c) => &c.common,
            DevcontainerConfig::DockerfileBuild(c) => &c.common,
            DevcontainerConfig::DockerCompose(c) => &c.common,
        }
    }

    /// This configuration with `common` as its shared settings.
    pub fn with_common(self, common: CommonConfig) -> (r: DevcontainerConfig)
        ensures
            r == match self {
                DevcontainerConfig::Image(c) => DevcontainerConfig::Image(ImageConfig { common, ..c }),
                DevcontainerConfig::Dockerfile(c) => DevcontainerConfig::Dockerfile(DockerfileConfig { common, ..c }),
                DevcontainerConfig::DockerfileBuild(c) => DevcontainerConfig::DockerfileBuild(DockerfileBuildConfig { common, ..c }),
                DevcontainerConfig::DockerCompose(c) => DevcontainerConfig::DockerCompose(DockerComposeConfig { common, ..c }),
            },
    {
        match self {
            DevcontainerConfig::Image(c) => DevcontainerConfig::Image(ImageConfig { common, ..c }),
            DevcontainerConfig::Dockerfile(c) => DevcontainerConfig::Dockerfile(DockerfileConfig { common, ..c }),
            DevcontainerConfig::DockerfileBuild(c) => DevcontainerConfig::DockerfileBuild(DockerfileBuildConfig { common, ..c }),
            DevcontainerConfig::DockerCompose(c) => DevcontainerConfig::DockerCompose(DockerComposeConfig { common, ..c }),
        }
    }

    /// The workspace folder in the container: the configured one (the compose
    /// configuration's own) or `/workspaces/` and the name of `cwd`, with its
    /// variables expanded.
    pub fn workspace_folder(&self, cwd: &str, local_env: &[(String, String)]) -> (r: String)
        ensures
            r@ == workspace_folder_of(*self, cwd@, local_env@),
    {
        let name = match file_name_exec(&chars_of(cwd)) {
            Some(n) => n,
            None => Vec::new(),
        };
        let mut d: Vec<char> = Vec::new();
        push_str(&mut d, "/workspaces/");
        crate::text::push_all(&mut d, name.as_slice());
        let default = string_of(d.as_slice());
        let raw: String = match self {
            DevcontainerConfig::DockerCompose(c) => c.workspace_folder.clone(),
            DevcontainerConfig::Image(c) => match &c.common.workspace_folder {
                Some(w) => w.clone(),
                None => default.clone(),
            },
            DevcontainerConfig::Dockerfile(c) => match &c.common.workspace_folder {
                Some(w) => w.clone(),
                None => default.clone(),
            },
            DevcontainerConfig::DockerfileBuild(c) => match &c.common.workspace_folder {
                Some(w) => w.clone(),
                None => default.clone(),
            },
        };
        let no_env: Vec<(String, String)> = Vec::new();
        assert(no_env@ =~= Seq::<(String, String)>::empty());
        expand_variables(raw.as_str(), cwd, default.as_str(), no_env.as_slice(), local_env)
    }
}

} // verus!
