use vstd::prelude::*;

use crate::devcontainer::config::texts;
use crate::devcontainer::jsonc::access::member;
use crate::devcontainer::jsonc::document::parse;
use crate::devcontainer::jsonc::grammar::parse_text;
use crate::devcontainer::jsonc::model::{lemma_array_view, node_value, JsonValue, Value};
use crate::devcontainer::shell::{trim, trim_chars};
use crate::devcontainer::docker_compose::{chars_equal, components, components_exec, last_name, last_name_exec, views};
use crate::docker::containers::Container;
use crate::features::mount::string_member;
use crate::text::{chars_of, push_all, string_of};

verus! {

/// The strings among `items`, in order; other values are passed over.
pub open spec fn strings_in(items: Seq<JsonValue>) -> Seq<Seq<char>>
    decreases items.len(),
{
    if items.len() == 0 {
        Seq::empty()
    } else {
        let rest = strings_in(items.drop_last());
        match items.last() {
            JsonValue::Str(s) => rest.push(s),
            _ => rest,
        }
    }
}

/// The JSON value that `text` holds without white space at its ends, if any.
pub open spec fn trimmed_json(text: Seq<char>) -> Option<JsonValue> {
    match parse_text(trim(text)) {
        Ok(d) => Some(node_value(d.root)),
        Err(_) => None,
    }
}

/// The strings of the array `v`; none where `v` is not an array.
pub open spec fn array_strings(v: JsonValue) -> Seq<Seq<char>> {
    match v {
        JsonValue::Array(items) => strings_in(items),
        _ => Seq::empty(),
    }
}

/// The strings of the array under `key` in `v`; none where there is no such array.
pub open spec fn member_strings(v: JsonValue, key: Seq<char>) -> Seq<Seq<char>> {
    match member(v, key) {
        Some(x) => array_strings(x),
        None => Seq::empty(),
    }
}

/// The strings among the items of the array `v`, in order.
pub(crate) fn collect_strings(v: &Value) -> (r: Vec<String>)
    ensures
        texts(r@) == array_strings(v@),
{
    let mut out: Vec<String> = Vec::new();
    proof { lemma_array_view(*v); }
    match v.as_array() {
        Some(items) => {
            let ghost xs = match v@ {
                JsonValue::Array(x) => x,
                _ => Seq::empty(),
            };
            let mut i: usize = 0;
            while i < items.len()
                invariant
                    i <= items.len(),
                    xs.len() == items.len(),
                    v@ == JsonValue::Array(xs),
                    forall|j: int| 0 <= j < items.len() ==> #[trigger] items@[j]@ == xs[j],
                    texts(out@) == strings_in(xs.subrange(0, i as int)),
                decreases items.len() - i,
            {
                let ghost before = out@;
                assert(xs.subrange(0, i + 1).drop_last() =~= xs.subrange(0, i as int));
                assert(xs.subrange(0, i + 1).last() == items@[i as int]@);
                match items[i].as_str() {
                    Some(s) => {
                        out.push(s.to_owned());
                        assert(texts(out@) =~= texts(before).push(s@));
                    },
                    None => {},
                }
                i += 1;
            }
            assert(xs.subrange(0, items.len() as int) =~= xs);
            out
        },
        None => {
            assert(texts(out@) =~= Seq::<Seq<char>>::empty());
            out
        },
    }
}

/// The value that `json` holds without white space at its ends.
fn parse_trimmed(json: &str) -> (r: Option<Value>)
    ensures
        match r {
            Some(v) => trimmed_json(json@) == Some(v@),
            None => trimmed_json(json@) is None,
        },
{
    let t = string_of(trim_chars(&chars_of(json)).as_slice());
    match parse(t.as_str()) {
        Ok(d) => Some(d.value()),
        Err(_) => None,
    }
}

/// The strings of the JSON array in `json` (such as the `Entrypoint` that
/// `docker inspect --format '{{json .Config.Entrypoint}}'` prints); none where it is
/// `null`, not an array, or not JSON.
pub fn parse_image_config_json(json: &str) -> (r: Vec<String>)
    ensures
        texts(r@) == match trimmed_json(json@) {
            Some(v) => array_strings(v),
            None => Seq::empty(),
        },
{
    match parse_trimmed(json) {
        Some(v) => collect_strings(&v),
        None => {
            let r: Vec<String> = Vec::new();
            assert(texts(r@) =~= Seq::<Seq<char>>::empty());
            r
        },
    }
}

/// The entrypoint and command of an image.
pub struct ImageConfig {
    pub entrypoint: Vec<String>,
    pub cmd: Vec<String>,
}

impl ImageConfig {
    /// The `Entrypoint` and `Cmd` string arrays of the image configuration in `json`;
    /// each empty where it is missing, not an array, or `json` is not JSON.
    pub fn parse(json: &str) -> (r: ImageConfig)
        ensures
            texts(r.entrypoint@) == match trimmed_json(json@) {
                Some(v) => member_strings(v, "Entrypoint"@),
                None => Seq::empty(),
            },
            texts(r.cmd@) == match trimmed_json(json@) {
                Some(v) => member_strings(v, "Cmd"@),
                None => Seq::empty(),
            },
    {
        match parse_trimmed(json) {
            Some(v) => {
                let entrypoint = match v.get("Entrypoint") {
                    Some(x) => collect_strings(x),
                    None => {
                        let e: Vec<String> = Vec::new();
                        assert(texts(e@) =~= Seq::<Seq<char>>::empty());
                        e
                    },
                };
                let cmd = match v.get("Cmd") {
                    Some(x) => collect_strings(x),
                    None => {
                        let e: Vec<String> = Vec::new();
                        assert(texts(e@) =~= Seq::<Seq<char>>::empty());
                        e
                    },
                };
                ImageConfig { entrypoint, cmd }
            },
            None => {
                let entrypoint: Vec<String> = Vec::new();
                let cmd: Vec<String> = Vec::new();
                assert(texts(entrypoint@) =~= Seq::<Seq<char>>::empty());
                assert(texts(cmd@) =~= Seq::<Seq<char>>::empty());
                ImageConfig { entrypoint, cmd }
            },
        }
    }
}

/// The string in `o` where it is a string that is not empty.
pub open spec fn nonempty_text(o: Option<JsonValue>) -> Option<Seq<char>> {
    match o {
        Some(JsonValue::Str(s)) => if s.len() > 0 {
            Some(s)
        } else {
            None
        },
        _ => None,
    }
}

/// The first non-empty `remoteUser` among `items[n..]`.
pub open spec fn first_remote_user(items: Seq<JsonValue>, n: int) -> Option<Seq<char>>
    decreases items.len() - n,
{
    if n < 0 || n >= items.len() {
        None
    } else {
        match nonempty_text(member(items[n], "remoteUser"@)) {
            Some(u) => Some(u),
            None => first_remote_user(items, n + 1),
        }
    }
}

/// The remote user that the image metadata `metadata` (a JSON array of entries) names
/// first.
pub open spec fn metadata_remote_user(metadata: Seq<char>) -> Option<Seq<char>> {
    match parse_text(metadata) {
        Ok(d) => match node_value(d.root) {
            JsonValue::Array(items) => first_remote_user(items, 0),
            _ => None,
        },
        Err(_) => None,
    }
}

/// The first non-empty `remoteUser` of the entries of the array `v`.
pub fn remote_user_in(v: &Value) -> (r: Option<String>)
    ensures
        opt_seq(r) == match v@ {
            JsonValue::Array(items) => first_remote_user(items, 0),
            _ => None,
        },
{
    proof { lemma_array_view(*v); }
    match v.as_array() {
        Some(items) => {
            let ghost xs = match v@ {
                JsonValue::Array(x) => x,
                _ => Seq::empty(),
            };
            let mut i: usize = 0;
            while i < items.len()
                invariant
                    i <= items.len(),
                    xs.len() == items.len(),
                    v@ == JsonValue::Array(xs),
                    forall|j: int| 0 <= j < items.len() ==> #[trigger] items@[j]@ == xs[j],
                    first_remote_user(xs, 0) == first_remote_user(xs, i as int),
                decreases items.len() - i,
            {
                assert(items@[i as int]@ == xs[i as int]);
                match items[i].get("remoteUser") {
                    Some(u) => match u.as_str() {
                        Some(s) => {
                            if s.unicode_len() > 0 {
                                return Some(s.to_owned());
                            }
                        },
                        None => {},
                    },
                    None => {},
                }
                i += 1;
            }
            None
        },
        None => None,
    }
}

pub open spec fn opt_seq(o: Option<String>) -> Option<Seq<char>> {
    match o {
        Some(s) => Some(s@),
        None => None,
    }
}

/// The remote user that the image metadata `metadata` names: the first non-empty
/// `remoteUser` of its entries.
pub fn parse_remote_user_from_metadata(metadata: &str) -> (r: Option<String>)
    ensures
        opt_seq(r) == metadata_remote_user(metadata@),
{
    match parse(metadata) {
        Ok(d) => remote_user_in(&d.value()),
        Err(_) => None,
    }
}

/// `s` with each backslash turned into a slash.
pub open spec fn slashed(s: Seq<char>) -> Seq<char> {
    s.map_values(|c: char| if c == '\\' { '/' } else { c })
}

/// End of `s[..n]` without the slashes that end it.
pub open spec fn end_before_slashes(s: Seq<char>, n: int) -> int
    decreases n,
{
    if 0 < n <= s.len() && s[n - 1] == '/' {
        end_before_slashes(s, n - 1)
    } else {
        n
    }
}

/// Start of the last part of `s[..n]`: just after its last slash, or 0.
pub open spec fn name_start(s: Seq<char>, n: int) -> int
    decreases n,
{
    if n <= 0 || n > s.len() {
        0
    } else if s[n - 1] == '/' {
        n
    } else {
        name_start(s, n - 1)
    }
}

/// The last name of a folder path written with slashes or backslashes.
pub open spec fn folder_name(s: Seq<char>) -> Seq<char> {
    let t = slashed(s);
    let e = end_before_slashes(t, t.len() as int);
    t.subrange(name_start(t, e), e)
}

pub open spec fn ends_with(s: Seq<char>, suffix: Seq<char>) -> bool {
    suffix.len() <= s.len() && s.subrange(s.len() - suffix.len(), s.len() as int) == suffix
}

/// `parts` with a slash between each two.
pub open spec fn joined_parts(parts: Seq<Seq<char>>) -> Seq<char>
    decreases parts.len(),
{
    if parts.len() == 0 {
        Seq::empty()
    } else if parts.len() == 1 {
        parts[0]
    } else {
        joined_parts(parts.drop_last()) + "/"@ + parts.last()
    }
}

/// The components of `path` after those of `base`, where `base`'s are a prefix of them.
pub open spec fn relative_parts(path: Seq<char>, base: Seq<char>) -> Option<Seq<Seq<char>>> {
    let a = components(base);
    let b = components(path);
    if a.len() <= b.len() && b.subrange(0, a.len() as int) == a {
        Some(b.subrange(a.len() as int, b.len() as int))
    } else {
        None
    }
}

/// The text of the string label `key`, or nothing.
pub open spec fn label_text(labels: JsonValue, key: Seq<char>) -> Seq<char> {
    match member(labels, key) {
        Some(JsonValue::Str(s)) => s,
        _ => Seq::empty(),
    }
}

pub open spec fn container_labels(c: JsonValue) -> Option<JsonValue> {
    match member(c, "Config"@) {
        Some(cfg) => member(cfg, "Labels"@),
        None => None,
    }
}

pub open spec fn config_user(c: JsonValue) -> Option<Seq<char>> {
    match member(c, "Config"@) {
        Some(cfg) => nonempty_text(member(cfg, "User"@)),
        None => None,
    }
}

/// Whether the inspected container `c` was made for the workspace folder named `base`
/// and a configuration file whose path ends with `suffix`.
pub open spec fn container_matches(c: JsonValue, base: Seq<char>, suffix: Seq<char>) -> bool {
    match (string_member(c, "Id"@), container_labels(c)) {
        (Some(_), Some(labels)) => folder_name(label_text(labels, "devcontainer.local_folder"@)) == base
            && ends_with(slashed(label_text(labels, "devcontainer.config_file"@)), suffix),
        _ => false,
    }
}

/// The id of `c` and its remote user: the one its metadata label names, else its
/// configured user.
pub open spec fn container_found(c: JsonValue) -> (Seq<char>, Option<Seq<char>>) {
    let labels = container_labels(c)->0;
    let user = match metadata_remote_user(label_text(labels, "devcontainer.metadata"@)) {
        Some(u) => Some(u),
        None => config_user(c),
    };
    (string_member(c, "Id"@)->0, user)
}

/// The first of `items[n..]` that matches.
pub open spec fn first_container(items: Seq<JsonValue>, base: Seq<char>, suffix: Seq<char>, n: int) -> Option<
    (Seq<char>, Option<Seq<char>>),
>
    decreases items.len() - n,
{
    if n < 0 || n >= items.len() {
        None
    } else if container_matches(items[n], base, suffix) {
        Some(container_found(items[n]))
    } else {
        first_container(items, base, suffix, n + 1)
    }
}

/// The container that `docker inspect` output `inspect_json` shows for the
/// configuration file `config_path` of the workspace folder `cwd`.
pub open spec fn found_container(inspect_json: Seq<char>, config_path: Seq<char>, cwd: Seq<char>) -> Option<
    (Seq<char>, Option<Seq<char>>),
> {
    match parse_text(inspect_json) {
        Ok(d) => match node_value(d.root) {
            JsonValue::Array(items) => {
                let base = last_name(components(cwd));
                if base.len() == 0 {
                    None
                } else {
                    match relative_parts(config_path, cwd) {
                        Some(rel) => first_container(items, base, "/"@ + joined_parts(rel), 0),
                        None => None,
                    }
                }
            },
            _ => None,
        },
        Err(_) => None,
    }
}

pub open spec fn container_view(c: Container) -> (Seq<char>, Option<Seq<char>>) {
    (c.id@, opt_seq(c.remote_user))
}

fn slashed_exec(s: &Vec<char>) -> (r: Vec<char>)
    ensures
        r@ == slashed(s@),
{
    let mut out: Vec<char> = Vec::new();
    let mut i: usize = 0;
    while i < s.len()
        invariant
            i <= s.len(),
            out@ == slashed(s@.subrange(0, i as int)),
        decreases s.len() - i,
    {
        let c = s[i];
        out.push(if c == '\\' { '/' } else { c });
        assert(slashed(s@.subrange(0, i + 1)) =~= slashed(s@.subrange(0, i as int)).push(
            if c == '\\' { '/' } else { c },
        ));
        i += 1;
    }
    assert(s@.subrange(0, s.len() as int) =~= s@);
    out
}

proof fn lemma_end_before_slashes(s: Seq<char>, n: int)
    requires
        0 <= n <= s.len(),
    ensures
        0 <= end_before_slashes(s, n) <= n,
    decreases n,
{
    if 0 < n && s[n - 1] == '/' {
        lemma_end_before_slashes(s, n - 1);
    }
}

proof fn lemma_name_start(s: Seq<char>, n: int)
    requires
        0 <= n <= s.len(),
    ensures
        0 <= name_start(s, n) <= n,
    decreases n,
{
    if 0 < n && s[n - 1] != '/' {
        lemma_name_start(s, n - 1);
    }
}

fn folder_name_exec(s: &Vec<char>) -> (r: Vec<char>)
    ensures
        r@ == folder_name(s@),
{
    let t = slashed_exec(s);
    let mut e = t.len();
    while e > 0 && t[e - 1] == '/'
        invariant
            e <= t.len(),
            end_before_slashes(t@, t.len() as int) == end_before_slashes(t@, e as int),
        decreases e,
    {
        e -= 1;
    }
    let mut b = e;
    while b > 0 && t[b - 1] != '/'
        invariant
            b <= e <= t.len(),
            name_start(t@, e as int) == name_start(t@, b as int),
        decreases b,
    {
        b -= 1;
    }
    crate::text::sub_chars(&t, b, e)
}

fn ends_with_exec(s: &Vec<char>, suffix: &Vec<char>) -> (r: bool)
    ensures
        r == ends_with(s@, suffix@),
{
    if suffix.len() > s.len() {
        return false;
    }
    let off = s.len() - suffix.len();
    let mut i: usize = 0;
    while i < suffix.len()
        invariant
            off + suffix.len() == s.len(),
            i <= suffix.len(),
            forall|j: int| 0 <= j < i ==> s@[off + j] == suffix@[j],
        decreases suffix.len() - i,
    {
        if s[off + i] != suffix[i] {
            assert(s@.subrange(off as int, s.len() as int)[i as int] != suffix@[i as int]);
            return false;
        }
        i += 1;
    }
    assert(s@.subrange(off as int, s.len() as int) =~= suffix@);
    true
}

/// `/` and the components of `path` after those of `base`, joined by slashes, where
/// `base`'s components begin `path`'s.
fn relative_suffix(path: &Vec<char>, base: &Vec<char>) -> (r: Option<Vec<char>>)
    ensures
        match relative_parts(path@, base@) {
            Some(rel) => r matches Some(x) && x@ == "/"@ + joined_parts(rel),
            None => r is None,
        },
{
    let a = components_exec(base);
    let b = components_exec(path);
    proof {
        assert(views(a@) =~= components(base@));
        assert(views(b@) =~= components(path@));
    }
    if a.len() > b.len() {
        return None;
    }
    let mut i: usize = 0;
    while i < a.len()
        invariant
            a.len() <= b.len(),
            i <= a.len(),
            views(a@) == components(base@),
            views(b@) == components(path@),
            forall|j: int| 0 <= j < i ==> #[trigger] views(b@)[j] == views(a@)[j],
        decreases a.len() - i,
    {
        if !chars_equal(&a[i], &b[i]) {
            proof {
                assert(views(b@).subrange(0, a.len() as int)[i as int] != views(a@)[i as int]);
            }
            return None;
        }
        i += 1;
    }
    assert(views(b@).subrange(0, a.len() as int) =~= views(a@));
    let ghost rel = views(b@).subrange(a.len() as int, b.len() as int);
    let mut out: Vec<char> = Vec::new();
    out.push('/');
    proof {
        reveal_strlit("/");
        assert(rel.subrange(0, 0) =~= Seq::<Seq<char>>::empty());
        assert(out@ =~= "/"@ + joined_parts(rel.subrange(0, 0)));
    }
    let mut k: usize = a.len();
    while k < b.len()
        invariant
            a.len() <= k <= b.len(),
            views(a@) == components(base@),
            views(b@) == components(path@),
            rel == views(b@).subrange(a.len() as int, b.len() as int),
            out@ == "/"@ + joined_parts(rel.subrange(0, k - a.len())),
        decreases b.len() - k,
    {
        let ghost before = rel.subrange(0, k - a.len());
        let ghost after = rel.subrange(0, k + 1 - a.len());
        assert(after.drop_last() =~= before);
        assert(after.last() == b@[k as int]@);
        if k > a.len() {
            out.push('/');
        } else {
            assert(before.len() == 0);
            assert(joined_parts(after) == after[0]);
        }
        push_all(&mut out, b[k].as_slice());
        proof {
            reveal_strlit("/");
            if k > a.len() {
                assert(out@ =~= "/"@ + (joined_parts(before) + "/"@ + after.last()));
            } else {
                assert(out@ =~= "/"@ + after[0]);
            }
        }
        k += 1;
    }
    assert(rel.subrange(0, b.len() - a.len()) =~= rel);
    Some(out)
}

/// The first container of the inspected containers `items` made for the workspace
/// folder named `base` and a configuration file whose path ends with `suffix`.
pub fn first_container_in(items: &[Value], base: &Vec<char>, suffix: &Vec<char>) -> (r: Option<Container>)
    ensures
        match r {
            Some(c) => first_container(items@.map_values(|x: Value| x@), base@, suffix@, 0) == Some(
                container_view(c),
            ),
            None => first_container(items@.map_values(|x: Value| x@), base@, suffix@, 0) is None,
        },
{
    let ghost xs = items@.map_values(|x: Value| x@);
    let mut i: usize = 0;
    while i < items.len()
        invariant
            i <= items.len(),
            xs == items@.map_values(|x: Value| x@),
            first_container(xs, base@, suffix@, 0) == first_container(xs, base@, suffix@, i as int),
        decreases items.len() - i,
    {
        let c = &items[i];
        assert(xs[i as int] == c@);
        let id = match c.get("Id") {
            Some(v) => match v.as_str() {
                Some(s) => s,
                None => {
                    i += 1;
                    continue;
                },
            },
            None => {
                i += 1;
                continue;
            },
        };
        let config = match c.get("Config") {
            Some(x) => x,
            None => {
                i += 1;
                continue;
            },
        };
        let labels = match config.get("Labels") {
            Some(l) => l,
            None => {
                i += 1;
                continue;
            },
        };
        let local_folder = label_chars(labels, "devcontainer.local_folder");
        let config_file = label_chars(labels, "devcontainer.config_file");
        let name = folder_name_exec(&local_folder);
        if !chars_equal(&name, base) {
            i += 1;
            continue;
        }
        let norm_config = slashed_exec(&config_file);
        if !ends_with_exec(&norm_config, suffix) {
            i += 1;
            continue;
        }
        let metadata = string_of(label_chars(labels, "devcontainer.metadata").as_slice());
        let config_user: Option<String> = match config.get("User") {
            Some(u) => match u.as_str() {
                Some(s) => if s.unicode_len() > 0 {
                    Some(s.to_owned())
                } else {
                    None
                },
                None => None,
            },
            None => None,
        };
        let remote_user = match parse_remote_user_from_metadata(metadata.as_str()) {
            Some(u) => Some(u),
            None => config_user,
        };
        let found = Container { id: id.to_owned(), remote_user };
        assert(container_view(found) == container_found(xs[i as int]));
        return Some(found);
    }
    None
}

/// The text of the string label `key` of `labels`, or nothing.
fn label_chars(labels: &Value, key: &str) -> (r: Vec<char>)
    ensures
        r@ == label_text(labels@, key@),
{
    match labels.get(key) {
        Some(v) => match v.as_str() {
            Some(s) => chars_of(s),
            None => Vec::new(),
        },
        None => Vec::new(),
    }
}

/// The container that the `docker inspect` output `inspect_json` shows for the
/// configuration file `config_path` of the workspace folder `cwd`: the first whose
/// labels name a local folder with the same last name as `cwd` and a configuration
/// file whose path ends with `config_path` relative to `cwd`.
pub fn find_container(inspect_json: &str, config_path: &str, cwd: &str) -> (r: Option<Container>)
    ensures
        match r {
            Some(c) => found_container(inspect_json@, config_path@, cwd@) == Some(container_view(c)),
            None => found_container(inspect_json@, config_path@, cwd@) is None,
        },
{
    let document = match parse(inspect_json) {
        Ok(d) => d,
        Err(_) => return None,
    };
    let value = document.value();
    proof { lemma_array_view(value); }
    let items = match value.as_array() {
        Some(a) => a,
        None => return None,
    };
    let cwd_chars = chars_of(cwd);
    let comps = components_exec(&cwd_chars);
    proof {
        assert(views(comps@) =~= components(cwd@));
    }
    let base = last_name_exec(&comps);
    if base.len() == 0 {
        return None;
    }
    let suffix = match relative_suffix(&chars_of(config_path), &cwd_chars) {
        Some(s) => s,
        None => return None,
    };
    proof {
        if let JsonValue::Array(x) = value@ {
            assert(x =~= items@.map_values(|v: Value| v@));
        }
    }
    first_container_in(items, &base, &suffix)
}

} // verus!
