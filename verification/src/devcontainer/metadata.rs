use vstd::prelude::*;

use crate::devcontainer::config::{
    common_matches, common_valid, env_entry_of, env_read, keyed_by, keyed_env, mounts_of, opt_bool_of,
    opt_string_of, opt_text, named_of, probe_named, string_map_field, string_vec_of, texts, wait_for_named,
    CommonConfig, UserEnvProbe, WaitFor,
};
use crate::devcontainer::jsonc::access::{member, StringMap};
use crate::devcontainer::jsonc::model::{lemma_array_view, JsonValue, Value};
use crate::devcontainer::jsonc::writer::compact_text;
use crate::devcontainer::shell::{trim, trim_chars};
use crate::features::source::{find_char, first_index_of, lemma_first_index_of};
use crate::text::{chars_of, push_all, push_str, same_text, starts_at, string_of, sub_chars};

verus! {

/// The configuration entries recorded on an image or a container, earliest first.
#[derive(Debug, PartialEq, Clone)]
pub struct Metadata(pub Vec<Value>);

pub open spec fn is_empty_object(v: JsonValue) -> bool {
    v matches JsonValue::Object(keys, _) && keys.len() == 0
}

/// `s[..n]` without its empty objects.
pub open spec fn kept_entries(s: Seq<JsonValue>, n: int) -> Seq<JsonValue>
    decreases n,
{
    if n <= 0 {
        seq![]
    } else {
        kept_entries(s, n - 1) + if is_empty_object(s[n - 1]) {
            seq![]
        } else {
            seq![s[n - 1]]
        }
    }
}

/// The entries a metadata value gives: the items of an array, or an object alone;
/// empty objects are dropped.
pub open spec fn metadata_entries(v: JsonValue) -> Seq<JsonValue> {
    let raw = match v {
        JsonValue::Array(items) => items,
        JsonValue::Object(_, _) => seq![v],
        _ => seq![],
    };
    kept_entries(raw, raw.len() as int)
}

impl View for Metadata {
    type V = Seq<JsonValue>;

    open spec fn view(&self) -> Seq<JsonValue> {
        Seq::new(self.0.len() as nat, |i: int| self.0@[i]@)
    }
}

impl Default for Metadata {
    fn default() -> (r: Metadata)
        ensures
            r@ == Seq::<JsonValue>::empty(),
    {
        let r = Metadata(Vec::new());
        assert(r@ =~= Seq::<JsonValue>::empty());
        r
    }
}

fn is_empty_object_exec(v: &Value) -> (r: bool)
    ensures
        r == is_empty_object(v@),
{
    match v {
        Value::Object(members) => members.len() == 0,
        _ => false,
    }
}

impl Metadata {
    /// The metadata a value gives (see [`metadata_entries`]).
    pub fn of(value: Value) -> (r: Metadata)
        ensures
            r@ == metadata_entries(value@),
    {
        proof { lemma_array_view(value); }
        let ghost v = value@;
        let raw: Vec<Value> = match value {
            Value::Array(items) => items,
            Value::Object(members) => {
                let mut one: Vec<Value> = Vec::new();
                one.push(Value::Object(members));
                one
            },
            _ => Vec::new(),
        };
        let ghost rs = Seq::new(raw.len() as nat, |i: int| raw@[i]@);
        assert(rs =~= match v {
            JsonValue::Array(items) => items,
            JsonValue::Object(_, _) => seq![v],
            _ => seq![],
        });
        let mut out: Vec<Value> = Vec::new();
        assert(rs.len() <= usize::MAX);
        let mut src = raw;
        let mut rev: Vec<Value> = Vec::new();
        while src.len() > 0
            invariant
                src.len() + rev.len() == rs.len(),
                rs.len() <= usize::MAX,
                forall|k: int| 0 <= k < src.len() ==> #[trigger] src@[k]@ == rs[k],
                forall|k: int| 0 <= k < rev.len() ==> #[trigger] rev@[k]@ == rs[rs.len() - 1 - k],
            decreases src.len(),
        {
            let x = src.pop().unwrap();
            rev.push(x);
        }
        let mut i: usize = 0;
        while rev.len() > 0
            invariant
                i + rev.len() == rs.len(),
                rs.len() <= usize::MAX,
                forall|k: int| 0 <= k < rev.len() ==> #[trigger] rev@[k]@ == rs[rs.len() - 1 - k],
                Seq::new(out.len() as nat, |k: int| out@[k]@) == kept_entries(rs, i as int),
            decreases rev.len(),
        {
            let x = rev.pop().unwrap();
            assert(x@ == rs[i as int]);
            let ghost before = Seq::new(out.len() as nat, |k: int| out@[k]@);
            if !is_empty_object_exec(&x) {
                out.push(x);
            }
            assert(Seq::new(out.len() as nat, |k: int| out@[k]@) =~= kept_entries(rs, i + 1));
            i += 1;
        }
        Metadata(out)
    }

    /// The entries.
    pub fn entries(&self) -> (r: &[Value])
        ensures
            r.len() == self@.len(),
            forall|i: int| 0 <= i < r.len() ==> #[trigger] r@[i]@ == self@[i],
    {
        self.0.as_slice()
    }
}

/// The label that carries the metadata of an image or a container.
pub const LABEL: &'static str = "devcontainer.metadata";

/// The target a field of a `--mount` argument names, where its key is `target`,
/// `dst` or `destination` (blanks around the key aside).
pub open spec fn field_target(f: Seq<char>) -> Option<Seq<char>> {
    match first_index_of(f, '=', 0) {
        Some(e) => {
            let key = trim(f.take(e));
            if key == "target"@ || key == "dst"@ || key == "destination"@ {
                Some(f.skip(e + 1))
            } else {
                None
            }
        },
        None => None,
    }
}

/// The first target named by a field of `s` from the field starting at `start` on.
pub open spec fn target_from(s: Seq<char>, start: int) -> Option<Seq<char>>
    decreases s.len() - start,
{
    if start < 0 || start > s.len() {
        None
    } else {
        let end = match first_index_of(s, ',', start) {
            Some(e) => e,
            None => s.len() as int,
        };
        match field_target(s.subrange(start, end)) {
            Some(t) => Some(t),
            None => if end >= s.len() {
                None
            } else {
                proof {
                    lemma_first_index_of(s, ',', start);
                }
                target_from(s, end + 1)
            },
        }
    }
}

/// The target of a `--mount` argument: the value of its first `target`, `dst` or
/// `destination` field.
pub open spec fn mount_target_of(m: Seq<char>) -> Option<Seq<char>> {
    target_from(m, 0)
}

fn field_target_exec(f: &Vec<char>) -> (r: Option<Vec<char>>)
    ensures
        match field_target(f@) {
            Some(t) => r matches Some(x) && x@ == t,
            None => r is None,
        },
{
    match find_char(f, '=', 0) {
        Some(e) => {
            proof { lemma_first_index_of(f@, '=', 0); }
            let k = sub_chars(f, 0, e);
            assert(k@ =~= f@.take(e as int));
            let key = trim_chars(&k);
            let t1 = chars_of("target");
            let t2 = chars_of("dst");
            let t3 = chars_of("destination");
            if chars_eq(&key, &t1) || chars_eq(&key, &t2) || chars_eq(&key, &t3) {
                assert(e < f.len());
                let v = sub_chars(f, e + 1, f.len());
                assert(v@ =~= f@.skip(e + 1));
                Some(v)
            } else {
                None
            }
        },
        None => None,
    }
}

fn chars_eq(a: &Vec<char>, b: &Vec<char>) -> (r: bool)
    ensures
        r == (a@ == b@),
{
    if a.len() != b.len() {
        return false;
    }
    let r = starts_at(a.as_slice(), 0, b.as_slice());
    assert(a@.subrange(0, b.len() as int) =~= a@);
    r
}

/// The target of a `--mount` argument (see [`mount_target_of`]).
pub fn mount_target(mount: &str) -> (r: Option<String>)
    ensures
        match mount_target_of(mount@) {
            Some(t) => r matches Some(x) && x@ == t,
            None => r is None,
        },
{
    let s = chars_of(mount);
    let mut start: usize = 0;
    loop
        invariant
            start <= s.len(),
            s@ == mount@,
            mount_target_of(mount@) == target_from(s@, start as int),
        decreases s.len() - start,
    {
        let end = match find_char(&s, ',', start) {
            Some(e) => e,
            None => s.len(),
        };
        proof { lemma_first_index_of(s@, ',', start as int); }
        let field = sub_chars(&s, start, end);
        match field_target_exec(&field) {
            Some(t) => return Some(string_of(t.as_slice())),
            None => {},
        }
        if end >= s.len() {
            return None;
        }
        start = end + 1;
    }
}

/// The lifecycle commands under `key` in `entries[..n]`, `null` ones left out.
pub open spec fn commands_in(entries: Seq<JsonValue>, key: Seq<char>, n: int) -> Seq<JsonValue>
    decreases n,
{
    if n <= 0 {
        seq![]
    } else {
        commands_in(entries, key, n - 1) + match member(entries[n - 1], key) {
            Some(JsonValue::Null) => seq![],
            Some(c) => seq![c],
            None => seq![],
        }
    }
}

/// `$` doubled and `'` doubled, as a label inside a single-quoted YAML string that
/// Compose reads.
pub open spec fn compose_escaped(s: Seq<char>) -> Seq<char>
    decreases s.len(),
{
    if s.len() == 0 {
        seq![]
    } else {
        compose_escaped(s.drop_last()) + if s.last() == '$' {
            seq!['$', '$']
        } else if s.last() == '\'' {
            seq!['\'', '\'']
        } else {
            seq![s.last()]
        }
    }
}

/// The first position from `i` on where `pat` occurs in `s`.
pub open spec fn find_from(s: Seq<char>, pat: Seq<char>, i: int) -> Option<int>
    decreases s.len() + 1 - i,
{
    if i < 0 || i + pat.len() > s.len() {
        None
    } else if s.subrange(i, i + pat.len()) == pat {
        Some(i)
    } else {
        find_from(s, pat, i + 1)
    }
}

/// `s` with the first occurrence of `pat` replaced by `rep`.
pub open spec fn replace_first(s: Seq<char>, pat: Seq<char>, rep: Seq<char>) -> Seq<char> {
    match find_from(s, pat, 0) {
        Some(i) => s.take(i) + rep + s.skip(i + pat.len()),
        None => s,
    }
}

proof fn lemma_find_from(s: Seq<char>, pat: Seq<char>, i: int)
    requires
        0 <= i,
    ensures
        find_from(s, pat, i) matches Some(k) ==> i <= k && k + pat.len() <= s.len(),
    decreases s.len() + 1 - i,
{
    if i + pat.len() <= s.len() {
        lemma_find_from(s, pat, i + 1);
    }
}

pub(crate) fn replace_first_exec(s: &Vec<char>, pat: &Vec<char>, rep: &Vec<char>) -> (r: Vec<char>)
    ensures
        r@ == replace_first(s@, pat@, rep@),
{
    if pat.len() > s.len() {
        let r = sub_chars(s, 0, s.len());
        assert(r@ =~= s@);
        return r;
    }
    let mut i: usize = 0;
    while i <= s.len() - pat.len()
        invariant
            pat.len() <= s.len(),
            find_from(s@, pat@, 0) == find_from(s@, pat@, i as int),
        decreases s.len() + 1 - i,
    {
        if starts_at(s.as_slice(), i, pat.as_slice()) {
            proof { lemma_find_from(s@, pat@, 0); }
            let mut out = sub_chars(s, 0, i);
            push_all(&mut out, rep.as_slice());
            let rest = sub_chars(s, i + pat.len(), s.len());
            push_all(&mut out, rest.as_slice());
            assert(out@ =~= replace_first(s@, pat@, rep@));
            return out;
        }
        if i == s.len() - pat.len() {
            assert(find_from(s@, pat@, i + 1) is None);
            let r = sub_chars(s, 0, s.len());
            assert(r@ =~= s@);
            return r;
        }
        i += 1;
    }
    sub_chars(s, 0, s.len())
}

/// `LABEL=` and the entries as a compact JSON array.
pub open spec fn label_text(m: Seq<JsonValue>) -> Seq<char> {
    LABEL@ + "="@ + compact_text(JsonValue::Array(m))
}

/// The metadata that `image`, then each of `features`, then `config` give a container.
pub open spec fn joined_entries(image: Seq<JsonValue>, features: Seq<Metadata>, config: Seq<JsonValue>, n: int) -> Seq<JsonValue>
    decreases n,
{
    if n <= 0 {
        image
    } else {
        joined_entries(image, features, config, n - 1) + features[n - 1]@
    }
}

pub open spec fn values_view(v: Seq<Value>) -> Seq<JsonValue> {
    Seq::new(v.len(), |k: int| v[k]@)
}

fn push_value(entries: &mut Vec<Value>, x: &Value)
    ensures
        values_view(final(entries)@) == values_view(old(entries)@).push(x@),
{
    let c = x.clone();
    entries.push(c);
    assert(values_view(entries@) =~= values_view(old(entries)@).push(x@));
}

impl Metadata {
    /// The metadata of a container: the image's entries, then each feature's, then
    /// the configuration's.
    pub fn for_container(image: Metadata, features: &[Metadata], config: &Metadata) -> (r: Metadata)
        ensures
            r@ == joined_entries(image@, features@, config@, features.len() as int) + config@,
    {
        let mut entries = image.0;
        assert(values_view(entries@) =~= image@);
        let mut i: usize = 0;
        while i < features.len()
            invariant
                i <= features.len(),
                values_view(entries@) == joined_entries(image@, features@, config@, i as int),
            decreases features.len() - i,
        {
            let f = &features[i];
            let mut j: usize = 0;
            let ghost base = values_view(entries@);
            while j < f.0.len()
                invariant
                    j <= f.0.len(),
                    values_view(entries@) == base + f@.take(j as int),
                decreases f.0.len() - j,
            {
                push_value(&mut entries, &f.0[j]);
                assert(f@.take(j + 1) =~= f@.take(j as int).push(f@[j as int]));
                assert(values_view(entries@) =~= base + f@.take(j + 1));
                j += 1;
            }
            assert(f@.take(f.0.len() as int) =~= f@);
            i += 1;
        }
        let ghost base = values_view(entries@);
        let mut j: usize = 0;
        while j < config.0.len()
            invariant
                j <= config.0.len(),
                values_view(entries@) == base + config@.take(j as int),
            decreases config.0.len() - j,
        {
            push_value(&mut entries, &config.0[j]);
            assert(config@.take(j + 1) =~= config@.take(j as int).push(config@[j as int]));
            assert(values_view(entries@) =~= base + config@.take(j + 1));
            j += 1;
        }
        assert(config@.take(config.0.len() as int) =~= config@);
        let r = Metadata(entries);
        assert(r@ =~= values_view(r.0@));
        r
    }

    fn label(&self) -> (r: Vec<char>)
        ensures
            r@ == label_text(self@),
    {
        let mut items: Vec<Value> = Vec::new();
        let mut i: usize = 0;
        while i < self.0.len()
            invariant
                i <= self.0.len(),
                items.len() == i,
                forall|k: int| 0 <= k < i ==> #[trigger] items@[k]@ == self.0@[k]@,
            decreases self.0.len() - i,
        {
            items.push(self.0[i].clone());
            i += 1;
        }
        let array = Value::Array(items);
        proof {
            lemma_array_view(array);
            if let JsonValue::Array(x) = array@ {
                assert(x =~= self@);
            }
        }
        let mut out = chars_of(LABEL);
        push_str(&mut out, "=");
        let text = array.to_json_compact();
        push_str(&mut out, text.as_str());
        out
    }

    /// The `docker run` arguments that put the metadata on a container as its label.
    pub fn to_docker_args(&self) -> (r: Vec<String>)
        ensures
            r.len() == 2,
            r@[0]@ == "--label"@,
            r@[1]@ == label_text(self@),
    {
        let label = self.label();
        let mut r: Vec<String> = Vec::new();
        r.push("--label".to_owned());
        r.push(string_of(label.as_slice()));
        r
    }

    /// The Compose file `content` with the metadata label added under the service
    /// `service`, at its first `  '<service>':` line.
    pub fn to_compose_override(&self, content: &str, service: &str) -> (r: String)
        ensures
            r@ == replace_first(
                content@,
                "  '"@ + service@ + "':\n"@,
                "  '"@ + service@ + "':\n"@ + "    labels:\n      - '"@ + compose_escaped(label_text(self@)) + "'\n"@,
            ),
    {
        let label = self.label();
        let mut escaped: Vec<char> = Vec::new();
        let mut i: usize = 0;
        while i < label.len()
            invariant
                i <= label.len(),
                escaped@ == compose_escaped(label@.take(i as int)),
            decreases label.len() - i,
        {
            assert(label@.take(i + 1).drop_last() =~= label@.take(i as int));
            if label[i] == '$' {
                escaped.push('$');
                escaped.push('$');
            } else if label[i] == '\'' {
                escaped.push('\'');
                escaped.push('\'');
            } else {
                escaped.push(label[i]);
            }
            assert(escaped@ =~= compose_escaped(label@.take(i + 1)));
            i += 1;
        }
        assert(label@.take(label.len() as int) =~= label@);
        let mut pat: Vec<char> = Vec::new();
        push_str(&mut pat, "  '");
        push_str(&mut pat, service);
        push_str(&mut pat, "':\n");
        let mut rep: Vec<char> = Vec::new();
        push_str(&mut rep, "  '");
        push_str(&mut rep, service);
        push_str(&mut rep, "':\n");
        push_str(&mut rep, "    labels:\n      - '");
        push_all(&mut rep, escaped.as_slice());
        push_str(&mut rep, "'\n");
        let c = chars_of(content);
        let out = replace_first_exec(&c, &pat, &rep);
        assert(rep@ =~= "  '"@ + service@ + "':\n"@ + "    labels:\n      - '"@ + compose_escaped(label_text(self@)) + "'\n"@);
        string_of(out.as_slice())
    }

    /// The lifecycle commands under `key`, entry by entry, `null` ones left out.
    pub fn lifecycle_commands(&self, key: &str) -> (r: Vec<Value>)
        ensures
            Seq::new(r.len() as nat, |i: int| r@[i]@) == commands_in(self@, key@, self@.len() as int),
    {
        let mut out: Vec<Value> = Vec::new();
        let mut i: usize = 0;
        while i < self.0.len()
            invariant
                i <= self.0.len(),
                Seq::new(out.len() as nat, |k: int| out@[k]@) == commands_in(self@, key@, i as int),
            decreases self.0.len() - i,
        {
            let ghost before = Seq::new(out.len() as nat, |k: int| out@[k]@);
            match self.0[i].get(key) {
                Some(v) => match v {
                    Value::Null => {},
                    _ => out.push(v.clone()),
                },
                None => {},
            }
            assert(Seq::new(out.len() as nat, |k: int| out@[k]@) =~= commands_in(self@, key@, i + 1));
            i += 1;
        }
        out
    }
}

/// The settings that merging configurations combines, as plain values.
pub struct MergeModel {
    pub init: Option<bool>,
    pub privileged: Option<bool>,
    pub cap_add: Seq<Seq<char>>,
    pub security_opt: Seq<Seq<char>>,
    pub mounts: Seq<Seq<char>>,
    pub container_env: Map<Seq<char>, Seq<char>>,
    pub remote_env: Option<Map<Seq<char>, Option<Seq<char>>>>,
    pub container_user: Option<Seq<char>>,
    pub remote_user: Option<Seq<char>>,
    pub update_remote_user_uid: Option<bool>,
    pub user_env_probe: Option<UserEnvProbe>,
    pub override_command: Option<bool>,
    pub wait_for: Option<WaitFor>,
}

/// The variables of a list of `remoteEnv` entries with distinct names.
pub open spec fn env_map(l: Seq<(String, Option<String>)>) -> Map<Seq<char>, Option<Seq<char>>> {
    Map::new(
        |k: Seq<char>| exists|a: int| 0 <= a < l.len() && l[a].0@ == k,
        |k: Seq<char>| opt_text(l[choose|a: int| 0 <= a < l.len() && l[a].0@ == k].1),
    )
}

pub open spec fn unique_names<T>(l: Seq<(String, T)>) -> bool {
    forall|a: int, b: int| 0 <= a < b < l.len() ==> #[trigger] l[a].0@ != #[trigger] l[b].0@
}

pub open spec fn model_of(c: CommonConfig) -> MergeModel {
    MergeModel {
        init: c.init,
        privileged: c.privileged,
        cap_add: texts(c.cap_add@),
        security_opt: texts(c.security_opt@),
        mounts: texts(c.mounts@),
        container_env: c.container_env@,
        remote_env: match c.remote_env {
            Some(l) => Some(env_map(l@)),
            None => None,
        },
        container_user: opt_text(c.container_user),
        remote_user: opt_text(c.remote_user),
        update_remote_user_uid: c.update_remote_user_uid,
        user_env_probe: c.user_env_probe,
        override_command: c.override_command,
        wait_for: c.wait_for,
    }
}

/// The merged settings a valid configuration `v` gives.
pub open spec fn json_model(v: JsonValue) -> MergeModel {
    MergeModel {
        init: opt_bool_of(v, "init"@)->0,
        privileged: opt_bool_of(v, "privileged"@)->0,
        cap_add: string_vec_of(v, "capAdd"@)->0,
        security_opt: string_vec_of(v, "securityOpt"@)->0,
        mounts: mounts_of(v)->0,
        container_env: string_map_field(v, "containerEnv"@)->0,
        remote_env: match member(v, "remoteEnv"@) {
            None => None,
            Some(JsonValue::Null) => None,
            Some(o) => Some(Map::new(|k: Seq<char>| member(o, k) is Some, |k: Seq<char>| env_entry_of(member(o, k)->0)->0)),
        },
        container_user: opt_string_of(v, "containerUser"@)->0,
        remote_user: opt_string_of(v, "remoteUser"@)->0,
        update_remote_user_uid: opt_bool_of(v, "updateRemoteUserUID"@)->0,
        user_env_probe: named_of(opt_string_of(v, "userEnvProbe"@), |s: Seq<char>| probe_named(s)),
        override_command: opt_bool_of(v, "overrideCommand"@)->0,
        wait_for: named_of(opt_string_of(v, "waitFor"@), |s: Seq<char>| wait_for_named(s)),
    }
}

/// `init` or `privileged` of two configurations: on where either has it on.
pub open spec fn merged_flag(e: Option<bool>, l: Option<bool>) -> Option<bool> {
    if e == Some(true) || l == Some(true) {
        Some(true)
    } else if e is None && l is None {
        None
    } else {
        Some(false)
    }
}

/// `s[..n]` with each text after its first occurrence left out.
pub open spec fn dedup(s: Seq<Seq<char>>, n: int) -> Seq<Seq<char>>
    decreases n,
{
    if n <= 0 {
        seq![]
    } else {
        let d = dedup(s, n - 1);
        if d.contains(s[n - 1]) {
            d
        } else {
            d.push(s[n - 1])
        }
    }
}

/// Whether some mount of `later` has the target `t`.
pub open spec fn targets_contain(later: Seq<Seq<char>>, t: Seq<char>) -> bool {
    exists|j: int| 0 <= j < later.len() && mount_target_of(#[trigger] later[j]) == Some(t)
}

/// The mounts of `earlier[..n]` whose target no mount of `later` has.
pub open spec fn kept_mounts(earlier: Seq<Seq<char>>, later: Seq<Seq<char>>, n: int) -> Seq<Seq<char>>
    decreases n,
{
    if n <= 0 {
        seq![]
    } else {
        kept_mounts(earlier, later, n - 1) + match mount_target_of(earlier[n - 1]) {
            Some(t) => if targets_contain(later, t) {
                seq![]
            } else {
                seq![earlier[n - 1]]
            },
            None => seq![earlier[n - 1]],
        }
    }
}

pub open spec fn or_else<T>(l: Option<T>, e: Option<T>) -> Option<T> {
    match l {
        Some(x) => Some(x),
        None => e,
    }
}

/// Two configurations merged, the later one winning: flags on where either has them
/// on, capability and security options of both without repeats, the earlier mounts
/// whose target the later ones do not have and then the later mounts, the variables
/// of both with the later value of a name, and each other setting from the later
/// one where it has it.
pub open spec fn merge_models(e: MergeModel, l: MergeModel) -> MergeModel {
    MergeModel {
        init: merged_flag(e.init, l.init),
        privileged: merged_flag(e.privileged, l.privileged),
        cap_add: dedup(e.cap_add + l.cap_add, (e.cap_add + l.cap_add).len() as int),
        security_opt: dedup(e.security_opt + l.security_opt, (e.security_opt + l.security_opt).len() as int),
        mounts: kept_mounts(e.mounts, l.mounts, e.mounts.len() as int) + l.mounts,
        container_env: e.container_env.union_prefer_right(l.container_env),
        remote_env: match (e.remote_env, l.remote_env) {
            (None, None) => None,
            (a, b) => Some(
                match a {
                    Some(m) => m,
                    None => Map::empty(),
                }.union_prefer_right(
                    match b {
                        Some(m) => m,
                        None => Map::empty(),
                    },
                ),
            ),
        },
        container_user: or_else(l.container_user, e.container_user),
        remote_user: or_else(l.remote_user, e.remote_user),
        update_remote_user_uid: or_else(l.update_remote_user_uid, e.update_remote_user_uid),
        user_env_probe: or_else(l.user_env_probe, e.user_env_probe),
        override_command: or_else(l.override_command, e.override_command),
        wait_for: or_else(l.wait_for, e.wait_for),
    }
}

/// The first `n` configurations merged in order.
pub open spec fn fold_models(s: Seq<MergeModel>, n: int) -> MergeModel
    decreases n,
{
    if n <= 1 {
        s[0]
    } else {
        merge_models(fold_models(s, n - 1), s[n - 1])
    }
}

/// The entries of `s[..n]` that are valid configurations.
pub open spec fn valid_entries(s: Seq<JsonValue>, n: int) -> Seq<JsonValue>
    decreases n,
{
    if n <= 0 {
        seq![]
    } else {
        valid_entries(s, n - 1) + if common_valid(s[n - 1]) {
            seq![s[n - 1]]
        } else {
            seq![]
        }
    }
}

/// The settings a merge takes from the later configuration as they are.
pub open spec fn same_rest(r: CommonConfig, l: CommonConfig) -> bool {
    &&& r.name == l.name
    &&& r.forward_ports == l.forward_ports
    &&& r.ports_attributes == l.ports_attributes
    &&& r.other_ports_attributes == l.other_ports_attributes
    &&& r.initialize_command == l.initialize_command
    &&& r.on_create_command == l.on_create_command
    &&& r.update_content_command == l.update_content_command
    &&& r.post_create_command == l.post_create_command
    &&& r.post_start_command == l.post_start_command
    &&& r.post_attach_command == l.post_attach_command
    &&& r.workspace_folder == l.workspace_folder
    &&& r.features == l.features
    &&& r.override_feature_install_order == l.override_feature_install_order
    &&& r.host_requirements == l.host_requirements
    &&& r.customizations == l.customizations
    &&& r.metadata == l.metadata
}

/// What merging keeps true of a configuration: its variables are a well-formed map
/// and its `remoteEnv` names each variable once.
pub open spec fn mergeable(c: CommonConfig) -> bool {
    &&& c.container_env.wf()
    &&& match c.remote_env {
        Some(l) => unique_names(l@),
        None => true,
    }
}

proof fn lemma_json_model(c: CommonConfig, v: JsonValue)
    requires
        common_matches(c, v),
    ensures
        model_of(c) == json_model(v),
        mergeable(c),
{
    let m1 = model_of(c);
    let m2 = json_model(v);
    match member(v, "remoteEnv"@) {
        None => {},
        Some(JsonValue::Null) => {},
        Some(o) => {
            let l = c.remote_env->0@;
            assert(keyed_env(o, l));
            let mm = Map::new(|k: Seq<char>| member(o, k) is Some, |k: Seq<char>| env_entry_of(member(o, k)->0)->0);
            assert forall|k: Seq<char>| #[trigger] env_map(l).contains_key(k) == mm.contains_key(k) by {
                if mm.contains_key(k) {
                    assert(member(o, k) is Some);
                }
                if env_map(l).contains_key(k) {
                    let a = choose|a: int| 0 <= a < l.len() && l[a].0@ == k;
                    assert(member(o, l[a].0@) is Some);
                }
            }
            assert forall|k: Seq<char>| #[trigger] env_map(l).contains_key(k) implies env_map(l)[k] == mm[k] by {
                let a = choose|a: int| 0 <= a < l.len() && l[a].0@ == k;
                assert(member(o, l[a].0@) is Some);
            }
            assert(env_map(l) =~= mm);
        },
    }
    assert(m1 == m2);
}

fn merged_flag_exec(e: Option<bool>, l: Option<bool>) -> (r: Option<bool>)
    ensures
        r == merged_flag(e, l),
{
    match (e, l) {
        (Some(true), _) | (_, Some(true)) => Some(true),
        (None, None) => None,
        _ => Some(false),
    }
}

fn contains_text(v: &Vec<String>, s: &String) -> (r: bool)
    ensures
        r == texts(v@).contains(s@),
{
    let mut i: usize = 0;
    while i < v.len()
        invariant
            i <= v.len(),
            forall|j: int| 0 <= j < i ==> v@[j]@ != s@,
        decreases v.len() - i,
    {
        if same_text(v[i].as_str(), s.as_str()) {
            assert(texts(v@)[i as int] == s@);
            return true;
        }
        i += 1;
    }
    proof {
        if texts(v@).contains(s@) {
            let j = choose|j: int| 0 <= j < texts(v@).len() && texts(v@)[j] == s@;
            assert(v@[j]@ == s@);
        }
    }
    false
}

/// The texts of `a` and then `b`, each once, in the order they first occur.
fn dedup_concat(a: &Vec<String>, b: &Vec<String>) -> (r: Vec<String>)
    ensures
        texts(r@) == dedup(texts(a@) + texts(b@), (texts(a@) + texts(b@)).len() as int),
{
    let ghost s = texts(a@) + texts(b@);
    let mut out: Vec<String> = Vec::new();
    let mut k: usize = 0;
    while k < a.len()
        invariant
            k <= a.len(),
            s == texts(a@) + texts(b@),
            texts(out@) == dedup(s, k as int),
        decreases a.len() - k,
    {
        let ghost before = out@;
        if !contains_text(&out, &a[k]) {
            out.push(a[k].clone());
        }
        assert(texts(out@) =~= dedup(s, k + 1));
        k += 1;
    }
    let mut m: usize = 0;
    while m < b.len()
        invariant
            m <= b.len(),
            s == texts(a@) + texts(b@),
            texts(out@) == dedup(s, a.len() + m),
        decreases b.len() - m,
    {
        if !contains_text(&out, &b[m]) {
            out.push(b[m].clone());
        }
        assert(s[a.len() + m] == b@[m as int]@);
        assert(texts(out@) =~= dedup(s, a.len() + m + 1));
        m += 1;
    }
    out
}

fn targets_contain_exec(later: &Vec<String>, t: &String) -> (r: bool)
    ensures
        r == targets_contain(texts(later@), t@),
{
    let mut j: usize = 0;
    while j < later.len()
        invariant
            j <= later.len(),
            forall|q: int| 0 <= q < j ==> mount_target_of(#[trigger] texts(later@)[q]) != Some(t@),
        decreases later.len() - j,
    {
        match mount_target(later[j].as_str()) {
            Some(x) => {
                if same_text(x.as_str(), t.as_str()) {
                    assert(mount_target_of(texts(later@)[j as int]) == Some(t@));
                    return true;
                }
            },
            None => {},
        }
        assert(mount_target_of(texts(later@)[j as int]) != Some(t@));
        j += 1;
    }
    false
}

/// The earlier mounts whose target no later mount has, then the later mounts.
fn merged_mounts(e: &Vec<String>, l: &Vec<String>) -> (r: Vec<String>)
    ensures
        texts(r@) == kept_mounts(texts(e@), texts(l@), e.len() as int) + texts(l@),
{
    let mut out: Vec<String> = Vec::new();
    let mut i: usize = 0;
    while i < e.len()
        invariant
            i <= e.len(),
            texts(out@) == kept_mounts(texts(e@), texts(l@), i as int),
        decreases e.len() - i,
    {
        let keep = match mount_target(e[i].as_str()) {
            Some(t) => !targets_contain_exec(l, &t),
            None => true,
        };
        if keep {
            out.push(e[i].clone());
        }
        assert(texts(out@) =~= kept_mounts(texts(e@), texts(l@), i + 1));
        i += 1;
    }
    let ghost base = texts(out@);
    let mut j: usize = 0;
    while j < l.len()
        invariant
            j <= l.len(),
            texts(out@) == base + texts(l@).take(j as int),
        decreases l.len() - j,
    {
        let ghost ob = out@;
        let x = l[j].clone();
        out.push(x);
        assert(texts(out@) =~= texts(ob).push(l@[j as int]@));
        assert(texts(l@).take(j + 1) =~= texts(l@).take(j as int).push(l@[j as int]@));
        assert(texts(out@) =~= base + texts(l@).take(j + 1));
        j += 1;
    }
    assert(texts(l@).take(l.len() as int) =~= texts(l@));
    out
}

fn has_name(l: &Vec<(String, Option<String>)>, k: &String) -> (r: bool)
    ensures
        r == exists|a: int| 0 <= a < l.len() && l@[a].0@ == k@,
{
    let mut i: usize = 0;
    while i < l.len()
        invariant
            i <= l.len(),
            forall|a: int| 0 <= a < i ==> l@[a].0@ != k@,
        decreases l.len() - i,
    {
        if same_text(l[i].0.as_str(), k.as_str()) {
            return true;
        }
        i += 1;
    }
    false
}

pub open spec fn env_or_empty(o: Option<Vec<(String, Option<String>)>>) -> Map<Seq<char>, Option<Seq<char>>> {
    match o {
        Some(l) => env_map(l@),
        None => Map::empty(),
    }
}

/// The variables of both, the later value of a name winning; none where neither has any.
fn merged_env(e: Option<Vec<(String, Option<String>)>>, l: Option<Vec<(String, Option<String>)>>) -> (r: Option<Vec<(String, Option<String>)>>)
    requires
        e matches Some(x) ==> unique_names(x@),
        l matches Some(x) ==> unique_names(x@),
    ensures
        match (e, l) {
            (None, None) => r is None,
            _ => r matches Some(x) && unique_names(x@) && env_map(x@) == env_or_empty(e).union_prefer_right(env_or_empty(l)),
        },
{
    if e.is_none() && l.is_none() {
        return None;
    }
    let ghost em = env_or_empty(e);
    let ghost lm = env_or_empty(l);
    let el = match e {
        Some(x) => x,
        None => Vec::new(),
    };
    let ll = match l {
        Some(x) => x,
        None => Vec::new(),
    };
    assert(env_map(el@) =~= em);
    assert(env_map(ll@) =~= lm);
    let mut out: Vec<(String, Option<String>)> = Vec::new();
    let mut i: usize = 0;
    while i < el.len()
        invariant
            i <= el.len(),
            unique_names(el@),
            unique_names(ll@),
            unique_names(out@),
            forall|a: int| 0 <= a < out.len() ==> (exists|b: int| 0 <= b < i && #[trigger] out@[a] == el@[b])
                && !(exists|c: int| 0 <= c < ll.len() && ll@[c].0@ == out@[a].0@),
            forall|b: int| #![trigger el@[b]] 0 <= b < i && !(exists|c: int| 0 <= c < ll.len() && ll@[c].0@ == el@[b].0@)
                ==> exists|a: int| 0 <= a < out.len() && #[trigger] out@[a] == el@[b],
        decreases el.len() - i,
    {
        if !has_name(&ll, &el[i].0) {
            let entry = (el[i].0.clone(), el[i].1.clone());
            assert(entry == el@[i as int]);
            proof {
                assert forall|a: int| 0 <= a < out.len() implies out@[a].0@ != entry.0@ by {
                    let b = choose|b: int| 0 <= b < i && #[trigger] out@[a] == el@[b];
                    assert(el@[b].0@ != el@[i as int].0@);
                }
            }
            let ghost before = out@;
            out.push(entry);
            proof {
                assert forall|a: int, c: int| 0 <= a < c < out.len() implies #[trigger] out@[a].0@ != #[trigger] out@[c].0@ by {
                    if c == before.len() {
                    } else {
                        assert(before[a].0@ != before[c].0@);
                    }
                }
                assert forall|a: int| 0 <= a < out.len() implies (exists|b: int| 0 <= b < i + 1 && #[trigger] out@[a] == el@[b])
                    && !(exists|c: int| 0 <= c < ll.len() && ll@[c].0@ == out@[a].0@) by {
                    if a == before.len() {
                        assert(out@[a] == el@[i as int]);
                    } else {
                        assert(out@[a] == before[a]);
                    }
                }
                assert forall|b: int| #![trigger el@[b]] 0 <= b < i + 1 && !(exists|c: int| 0 <= c < ll.len() && ll@[c].0@ == el@[b].0@)
                    implies exists|a: int| 0 <= a < out.len() && #[trigger] out@[a] == el@[b] by {
                    if b == i {
                        assert(out@[before.len() as int] == el@[b]);
                    } else {
                        let a = choose|a: int| 0 <= a < before.len() && #[trigger] before[a] == el@[b];
                        assert(out@[a] == el@[b]);
                    }
                }
            }
        }
        i += 1;
    }
    let ghost kept = out@;
    let mut j: usize = 0;
    while j < ll.len()
        invariant
            j <= ll.len(),
            out@ == kept + ll@.take(j as int),
            unique_names(ll@),
            unique_names(kept),
            forall|a: int| 0 <= a < kept.len() ==> !(exists|c: int| 0 <= c < ll.len() && ll@[c].0@ == #[trigger] kept[a].0@),
        decreases ll.len() - j,
    {
        let entry = (ll[j].0.clone(), ll[j].1.clone());
        assert(entry == ll@[j as int]);
        out.push(entry);
        assert(out@ =~= kept + ll@.take(j + 1));
        j += 1;
    }
    assert(ll@.take(ll.len() as int) =~= ll@);
    proof {
        let o = out@;
        assert(unique_names(o)) by {
            assert forall|a: int, c: int| 0 <= a < c < o.len() implies #[trigger] o[a].0@ != #[trigger] o[c].0@ by {
                if c < kept.len() {
                    assert(kept[a].0@ != kept[c].0@);
                } else if a >= kept.len() {
                    assert(ll@[a - kept.len()].0@ != ll@[c - kept.len()].0@);
                } else {
                    assert(o[c] == ll@[c - kept.len()]);
                    if kept[a].0@ == ll@[c - kept.len()].0@ {
                        assert(exists|q: int| 0 <= q < ll.len() && ll@[q].0@ == kept[a].0@);
                    }
                }
            }
        }
        let target = em.union_prefer_right(lm);
        assert forall|k: Seq<char>| #[trigger] env_map(o).contains_key(k) == target.contains_key(k) by {
            if env_map(o).contains_key(k) {
                let a = choose|a: int| 0 <= a < o.len() && o[a].0@ == k;
                if a < kept.len() {
                    let b = choose|b: int| 0 <= b < el.len() && #[trigger] kept[a] == el@[b];
                    assert(em.contains_key(k));
                } else {
                    assert(o[a] == ll@[a - kept.len()]);
                    assert(lm.contains_key(k));
                }
            }
            if lm.contains_key(k) {
                let c = choose|c: int| 0 <= c < ll.len() && ll@[c].0@ == k;
                assert(o[kept.len() + c] == ll@[c]);
            } else if em.contains_key(k) {
                let b = choose|b: int| 0 <= b < el.len() && el@[b].0@ == k;
                if exists|c: int| 0 <= c < ll.len() && ll@[c].0@ == el@[b].0@ {
                    let c = choose|c: int| 0 <= c < ll.len() && ll@[c].0@ == el@[b].0@;
                    assert(lm.contains_key(k));
                }
                let a = choose|a: int| 0 <= a < kept.len() && #[trigger] kept[a] == el@[b];
                assert(o[a] == el@[b]);
            }
        }
        assert forall|k: Seq<char>| #[trigger] env_map(o).contains_key(k) implies env_map(o)[k] == target[k] by {
            let a = choose|a: int| 0 <= a < o.len() && o[a].0@ == k;
            if lm.contains_key(k) {
                let c = choose|c: int| 0 <= c < ll.len() && ll@[c].0@ == k;
                assert(o[kept.len() + c] == ll@[c]);
                if a != kept.len() + c {
                    if a < kept.len() + c {
                        assert(o[a].0@ != o[kept.len() + c].0@);
                    } else {
                        assert(o[kept.len() + c].0@ != o[a].0@);
                    }
                }
            } else {
                if a >= kept.len() {
                    assert(o[a] == ll@[a - kept.len()]);
                    assert(lm.contains_key(k));
                }
                let b = choose|b: int| 0 <= b < el.len() && #[trigger] kept[a] == el@[b];
                let b2 = choose|b2: int| 0 <= b2 < el.len() && el@[b2].0@ == k;
                if b2 != b {
                    if b2 < b {
                        assert(el@[b2].0@ != el@[b].0@);
                    } else {
                        assert(el@[b].0@ != el@[b2].0@);
                    }
                }
            }
        }
        assert(env_map(o) =~= target);
    }
    Some(out)
}

/// Two configurations merged, the later one winning (see [`merge_models`]); every
/// other setting is the later one's.
fn merge_two(e: CommonConfig, l: CommonConfig) -> (r: CommonConfig)
    requires
        mergeable(e),
        mergeable(l),
    ensures
        model_of(r) == merge_models(model_of(e), model_of(l)),
        same_rest(r, l),
        mergeable(r),
{
    let init = merged_flag_exec(e.init, l.init);
    let privileged = merged_flag_exec(e.privileged, l.privileged);
    let cap_add = dedup_concat(&e.cap_add, &l.cap_add);
    let security_opt = dedup_concat(&e.security_opt, &l.security_opt);
    let mounts = merged_mounts(&e.mounts, &l.mounts);
    let mut container_env = e.container_env;
    container_env.merge_from(&l.container_env);
    let ghost er = e.remote_env;
    let ghost lr = l.remote_env;
    let remote_env = merged_env(e.remote_env, l.remote_env);
    let r = CommonConfig {
        name: l.name,
        forward_ports: l.forward_ports,
        ports_attributes: l.ports_attributes,
        other_ports_attributes: l.other_ports_attributes,
        override_command: match l.override_command {
            Some(x) => Some(x),
            None => e.override_command,
        },
        initialize_command: l.initialize_command,
        on_create_command: l.on_create_command,
        update_content_command: l.update_content_command,
        post_create_command: l.post_create_command,
        post_start_command: l.post_start_command,
        post_attach_command: l.post_attach_command,
        wait_for: match l.wait_for {
            Some(x) => Some(x),
            None => e.wait_for,
        },
        workspace_folder: l.workspace_folder,
        mounts,
        container_env,
        container_user: match l.container_user {
            Some(x) => Some(x),
            None => e.container_user,
        },
        init,
        privileged,
        cap_add,
        security_opt,
        remote_env,
        remote_user: match l.remote_user {
            Some(x) => Some(x),
            None => e.remote_user,
        },
        update_remote_user_uid: match l.update_remote_user_uid {
            Some(x) => Some(x),
            None => e.update_remote_user_uid,
        },
        user_env_probe: match l.user_env_probe {
            Some(x) => Some(x),
            None => e.user_env_probe,
        },
        features: l.features,
        override_feature_install_order: l.override_feature_install_order,
        host_requirements: l.host_requirements,
        customizations: l.customizations,
        metadata: l.metadata,
    };
    proof {
        let m1 = model_of(r);
        let m2 = merge_models(model_of(e), model_of(l));
        assert(env_or_empty(er) == match model_of(e).remote_env { Some(m) => m, None => Map::empty() });
        assert(env_or_empty(lr) == match model_of(l).remote_env { Some(m) => m, None => Map::empty() });
        assert(m1.remote_env == m2.remote_env);
        assert(m1 == m2);
    }
    r
}

impl Metadata {
    /// `config` with the configurations of the entries merged under it: the valid
    /// entries in order, then `config`, each merged into those before it (see
    /// [`merge_models`]); the settings merging does not combine are `config`'s.
    pub fn merge_into(&self, config: CommonConfig) -> (r: CommonConfig)
        requires
            mergeable(config),
        ensures
            ({
                let valid = valid_entries(self@, self@.len() as int);
                let models = Seq::new(valid.len(), |i: int| json_model(valid[i])).push(model_of(config));
                model_of(r) == fold_models(models, models.len() as int)
            }),
            same_rest(r, config),
            mergeable(r),
    {
        let mut acc: Option<CommonConfig> = None;
        let mut i: usize = 0;
        while i < self.0.len()
            invariant
                i <= self.0.len(),
                ({
                    let valid = valid_entries(self@, i as int);
                    let models = Seq::new(valid.len(), |k: int| json_model(valid[k]));
                    match acc {
                        None => valid.len() == 0,
                        Some(a) => valid.len() > 0 && mergeable(a) && model_of(a) == fold_models(models, models.len() as int),
                    }
                }),
            decreases self.0.len() - i,
        {
            let ghost valid0 = valid_entries(self@, i as int);
            let ghost models0 = Seq::new(valid0.len(), |k: int| json_model(valid0[k]));
            match CommonConfig::from_value(&self.0[i]) {
                Some(c) => {
                    proof { lemma_json_model(c, self@[i as int]); }
                    let merged = match acc {
                        None => c,
                        Some(a) => merge_two(a, c),
                    };
                    acc = Some(merged);
                    proof {
                        let valid = valid_entries(self@, i + 1);
                        let models = Seq::new(valid.len(), |k: int| json_model(valid[k]));
                        assert(valid == valid0.push(self@[i as int]));
                        assert(models =~= models0.push(json_model(self@[i as int])));
                        if models0.len() > 0 {
                            assert(models.take(models0.len() as int) =~= models0);
                            lemma_fold_prefix(models, models0, models0.len() as int);
                        }
                    }
                },
                None => {
                    proof {
                        assert(valid_entries(self@, i + 1) == valid0);
                    }
                },
            }
            i += 1;
        }
        let ghost valid = valid_entries(self@, self@.len() as int);
        let ghost models0 = Seq::new(valid.len(), |k: int| json_model(valid[k]));
        let ghost models = models0.push(model_of(config));
        proof {
            if models0.len() > 0 {
                lemma_fold_prefix(models, models0, models0.len() as int);
            }
        }
        match acc {
            None => config,
            Some(a) => merge_two(a, config),
        }
    }
}

/// Folding a sequence looks only at its first `n` elements.
proof fn lemma_fold_prefix(s: Seq<MergeModel>, t: Seq<MergeModel>, n: int)
    requires
        1 <= n <= s.len(),
        n <= t.len(),
        forall|k: int| 0 <= k < n ==> s[k] == t[k],
    ensures
        fold_models(s, n) == fold_models(t, n),
    decreases n,
{
    if n > 1 {
        lemma_fold_prefix(s, t, n - 1);
    }
}

/// Merging configurations, a setting the last one has wins: its user, remote user,
/// probe, `waitFor`, `overrideCommand`, `updateRemoteUserUID` and variables.
pub proof fn law_last_setting_wins(s: Seq<MergeModel>, n: int)
    requires
        1 <= n <= s.len(),
    ensures
        s[n - 1].remote_user is Some ==> fold_models(s, n).remote_user == s[n - 1].remote_user,
        s[n - 1].container_user is Some ==> fold_models(s, n).container_user == s[n - 1].container_user,
        s[n - 1].user_env_probe is Some ==> fold_models(s, n).user_env_probe == s[n - 1].user_env_probe,
        s[n - 1].wait_for is Some ==> fold_models(s, n).wait_for == s[n - 1].wait_for,
        s[n - 1].override_command is Some ==> fold_models(s, n).override_command == s[n - 1].override_command,
        s[n - 1].update_remote_user_uid is Some ==> fold_models(s, n).update_remote_user_uid == s[n - 1].update_remote_user_uid,
        forall|k: Seq<char>| #[trigger] s[n - 1].container_env.contains_key(k) ==> fold_models(s, n).container_env.contains_key(k)
            && fold_models(s, n).container_env[k] == s[n - 1].container_env[k],
{
}

/// Merging two configurations, a setting the later one leaves unset keeps the earlier
/// one's value, and one it sets is its own: the container user, the remote user,
/// `updateRemoteUserUID`, the probe, `overrideCommand` and `waitFor`.
pub proof fn law_unset_setting_kept(e: MergeModel, l: MergeModel)
    ensures
        l.container_user is None ==> merge_models(e, l).container_user == e.container_user,
        l.container_user matches Some(u) ==> merge_models(e, l).container_user == Some(u),
        l.remote_user is None ==> merge_models(e, l).remote_user == e.remote_user,
        l.remote_user matches Some(u) ==> merge_models(e, l).remote_user == Some(u),
        l.update_remote_user_uid is None ==> merge_models(e, l).update_remote_user_uid == e.update_remote_user_uid,
        l.update_remote_user_uid matches Some(u) ==> merge_models(e, l).update_remote_user_uid == Some(u),
        l.user_env_probe is None ==> merge_models(e, l).user_env_probe == e.user_env_probe,
        l.user_env_probe matches Some(u) ==> merge_models(e, l).user_env_probe == Some(u),
        l.override_command is None ==> merge_models(e, l).override_command == e.override_command,
        l.override_command matches Some(u) ==> merge_models(e, l).override_command == Some(u),
        l.wait_for is None ==> merge_models(e, l).wait_for == e.wait_for,
        l.wait_for matches Some(u) ==> merge_models(e, l).wait_for == Some(u),
{
}

/// Merging configurations in order, the container user is the one of the last
/// configuration that sets one, and there is none where none sets one; likewise
/// `overrideCommand` and `updateRemoteUserUID`.
pub proof fn law_setting_from_last_setter(s: Seq<MergeModel>, n: int)
    requires
        1 <= n <= s.len(),
    ensures
        fold_models(s, n).container_user is None <==> forall|k: int| 0 <= k < n ==> (#[trigger] s[k]).container_user is None,
        fold_models(s, n).container_user is Some ==> exists|k: int| 0 <= k < n
            && (#[trigger] s[k]).container_user == fold_models(s, n).container_user
            && forall|j: int| k < j < n ==> (#[trigger] s[j]).container_user is None,
        fold_models(s, n).override_command is None <==> forall|k: int| 0 <= k < n ==> (#[trigger] s[k]).override_command is None,
        fold_models(s, n).override_command is Some ==> exists|k: int| 0 <= k < n
            && (#[trigger] s[k]).override_command == fold_models(s, n).override_command
            && forall|j: int| k < j < n ==> (#[trigger] s[j]).override_command is None,
        fold_models(s, n).update_remote_user_uid is None <==> forall|k: int| 0 <= k < n ==> (#[trigger] s[k]).update_remote_user_uid is None,
        fold_models(s, n).update_remote_user_uid is Some ==> exists|k: int| 0 <= k < n
            && (#[trigger] s[k]).update_remote_user_uid == fold_models(s, n).update_remote_user_uid
            && forall|j: int| k < j < n ==> (#[trigger] s[j]).update_remote_user_uid is None,
    decreases n,
{
    if n > 1 {
        law_setting_from_last_setter(s, n - 1);
        let f = fold_models(s, n);
        let g = fold_models(s, n - 1);
        law_unset_setting_kept(g, s[n - 1]);
        // container user
        if s[n - 1].container_user is Some {
            assert(s[n - 1].container_user == f.container_user);
        } else {
            if g.container_user is Some {
                let k = choose|k: int| 0 <= k < n - 1 && (#[trigger] s[k]).container_user == g.container_user
                    && forall|j: int| k < j < n - 1 ==> (#[trigger] s[j]).container_user is None;
                assert(forall|j: int| k < j < n ==> (#[trigger] s[j]).container_user is None);
            }
        }
        // overrideCommand
        if s[n - 1].override_command is Some {
            assert(s[n - 1].override_command == f.override_command);
        } else {
            if g.override_command is Some {
                let k = choose|k: int| 0 <= k < n - 1 && (#[trigger] s[k]).override_command == g.override_command
                    && forall|j: int| k < j < n - 1 ==> (#[trigger] s[j]).override_command is None;
                assert(forall|j: int| k < j < n ==> (#[trigger] s[j]).override_command is None);
            }
        }
        // updateRemoteUserUID
        if s[n - 1].update_remote_user_uid is Some {
            assert(s[n - 1].update_remote_user_uid == f.update_remote_user_uid);
        } else {
            if g.update_remote_user_uid is Some {
                let k = choose|k: int| 0 <= k < n - 1 && (#[trigger] s[k]).update_remote_user_uid == g.update_remote_user_uid
                    && forall|j: int| k < j < n - 1 ==> (#[trigger] s[j]).update_remote_user_uid is None;
                assert(forall|j: int| k < j < n ==> (#[trigger] s[j]).update_remote_user_uid is None);
            }
        }
    } else {
        assert(fold_models(s, n) == s[0]);
    }
}

/// Merging configurations, `init` and `privileged` are on where any of them has them on.
pub proof fn law_flags_on_if_any(s: Seq<MergeModel>, n: int)
    requires
        1 <= n <= s.len(),
    ensures
        fold_models(s, n).init == Some(true) <==> exists|k: int| 0 <= k < n && #[trigger] s[k].init == Some(true),
        fold_models(s, n).privileged == Some(true) <==> exists|k: int| 0 <= k < n && #[trigger] s[k].privileged == Some(true),
    decreases n,
{
    if n > 1 {
        law_flags_on_if_any(s, n - 1);
        if s[n - 1].init == Some(true) {
            assert(exists|k: int| 0 <= k < n && #[trigger] s[k].init == Some(true));
        }
        if s[n - 1].privileged == Some(true) {
            assert(exists|k: int| 0 <= k < n && #[trigger] s[k].privileged == Some(true));
        }
        if exists|k: int| 0 <= k < n && #[trigger] s[k].init == Some(true) {
            let k = choose|k: int| 0 <= k < n && #[trigger] s[k].init == Some(true);
            if k < n - 1 {
                assert(exists|k: int| 0 <= k < n - 1 && #[trigger] s[k].init == Some(true));
            }
        }
        if exists|k: int| 0 <= k < n && #[trigger] s[k].privileged == Some(true) {
            let k = choose|k: int| 0 <= k < n && #[trigger] s[k].privileged == Some(true);
            if k < n - 1 {
                assert(exists|k: int| 0 <= k < n - 1 && #[trigger] s[k].privileged == Some(true));
            }
        }
    } else {
        if exists|k: int| 0 <= k < n && #[trigger] s[k].init == Some(true) {
            let k = choose|k: int| 0 <= k < n && #[trigger] s[k].init == Some(true);
            assert(k == 0);
        }
        if exists|k: int| 0 <= k < n && #[trigger] s[k].privileged == Some(true) {
            let k = choose|k: int| 0 <= k < n && #[trigger] s[k].privileged == Some(true);
            assert(k == 0);
        }
    }
}

proof fn lemma_push_has<T>(s: Seq<T>, v: T)
    ensures
        forall|w: T| #[trigger] s.push(v).contains(w) <==> (s.contains(w) || w == v),
{
    assert forall|w: T| #[trigger] s.push(v).contains(w) <==> (s.contains(w) || w == v) by {
        if s.contains(w) {
            let i = choose|i: int| 0 <= i < s.len() && s[i] == w;
            assert(s.push(v)[i] == w);
        }
        if w == v {
            assert(s.push(v)[s.len() as int] == w);
        }
        if s.push(v).contains(w) {
            let i = choose|i: int| 0 <= i < s.len() + 1 && s.push(v)[i] == w;
            if i < s.len() {
                assert(s[i] == w);
            }
        }
    }
}

proof fn lemma_dedup_distinct(s: Seq<Seq<char>>, n: int)
    requires
        0 <= n <= s.len(),
    ensures
        dedup(s, n).no_duplicates(),
        forall|x: Seq<char>| #[trigger] dedup(s, n).contains(x) <==> s.take(n).contains(x),
    decreases n,
{
    if n > 0 {
        lemma_dedup_distinct(s, n - 1);
        let d = dedup(s, n - 1);
        assert(s.take(n) =~= s.take(n - 1).push(s[n - 1]));
        lemma_push_has(s.take(n - 1), s[n - 1]);
        lemma_push_has(d, s[n - 1]);
        if !d.contains(s[n - 1]) {
            assert forall|i: int, j: int| 0 <= i < dedup(s, n).len() && 0 <= j < dedup(s, n).len() && i != j
                implies dedup(s, n)[i] != dedup(s, n)[j] by {
                if i < d.len() && j < d.len() {
                } else if i < d.len() {
                    assert(d.contains(d[i]));
                } else {
                    assert(d.contains(d[j]));
                }
            }
        }
    } else {
        assert(s.take(0) =~= Seq::<Seq<char>>::empty());
    }
}

/// Merging two or more configurations, each capability and security option occurs once.
pub proof fn law_merged_options_distinct(s: Seq<MergeModel>, n: int)
    requires
        2 <= n <= s.len(),
    ensures
        fold_models(s, n).cap_add.no_duplicates(),
        fold_models(s, n).security_opt.no_duplicates(),
{
    let e = fold_models(s, n - 1);
    let l = s[n - 1];
    lemma_dedup_distinct(e.cap_add + l.cap_add, (e.cap_add + l.cap_add).len() as int);
    lemma_dedup_distinct(e.security_opt + l.security_opt, (e.security_opt + l.security_opt).len() as int);
}

} // verus!
