use vstd::prelude::*;

use crate::devcontainer::config::{is_last_at, is_last_member, member_keys, req_string, req_string_of, texts, DockerComposeConfig};
use crate::devcontainer::jsonc::access::{last_key_index, member};
use crate::devcontainer::jsonc::document::parse;
use crate::devcontainer::jsonc::grammar::{parse_text, DocumentModel, JsoncError};
use crate::devcontainer::jsonc::model::{lemma_object_view, node_value, JsonValue, Value};
use crate::docker::tag::{file_name, file_name_exec, lowercase, to_lowercase};
use crate::features::source::{find_char, first_index_of, lemma_first_index_of};
use crate::text::{chars_of, push_all, push_str, same_text, string_of, sub_chars};

verus! {

/// The parts of `p` between slashes from `i` on, without empty parts and `.`.
pub open spec fn parts_from(p: Seq<char>, i: int) -> Seq<Seq<char>>
    decreases p.len() - i,
{
    if i < 0 || i >= p.len() {
        seq![]
    } else {
        let end = match first_index_of(p, '/', i) {
            Some(e) => e,
            None => p.len() as int,
        };
        let part = p.subrange(i, end);
        let rest = if end >= p.len() {
            seq![]
        } else {
            proof {
                lemma_first_index_of(p, '/', i);
            }
            parts_from(p, end + 1)
        };
        if part.len() == 0 || part == "."@ {
            rest
        } else {
            seq![part] + rest
        }
    }
}

/// The components of a path as `Path::components` gives them: `/` for its root, `.`
/// for a leading `.` of a relative path, and each other part between slashes but
/// empty ones and `.`.
pub open spec fn components(p: Seq<char>) -> Seq<Seq<char>> {
    if p.len() > 0 && p[0] == '/' {
        seq!["/"@] + parts_from(p, 1)
    } else if p.len() > 0 && p[0] == '.' && (p.len() == 1 || p[1] == '/') {
        seq!["."@] + parts_from(p, 1)
    } else {
        parts_from(p, 0)
    }
}

/// `Path::join`: `f` where it is absolute, else `f` after `dir` and a slash.
pub open spec fn joined(dir: Seq<char>, f: Seq<char>) -> Seq<char> {
    if f.len() > 0 && f[0] == '/' {
        f
    } else if dir.len() == 0 {
        f
    } else if dir[dir.len() - 1] == '/' {
        dir + f
    } else {
        dir + "/"@ + f
    }
}

/// Components with each `..` taking away the one before it and `.` left out.
pub open spec fn normalized(c: Seq<Seq<char>>, n: int) -> Seq<Seq<char>>
    decreases n,
{
    if n <= 0 {
        seq![]
    } else {
        let p = normalized(c, n - 1);
        if c[n - 1] == ".."@ {
            if p.len() > 0 {
                p.drop_last()
            } else {
                p
            }
        } else if c[n - 1] == "."@ {
            p
        } else {
            p.push(c[n - 1])
        }
    }
}

/// The components of a path's parent: none for an empty path or the root.
pub open spec fn parent_of(c: Seq<Seq<char>>) -> Option<Seq<Seq<char>>> {
    if c.len() == 0 || c.last() == "/"@ {
        None
    } else {
        Some(c.drop_last())
    }
}

/// The last component where it is a name.
pub open spec fn last_name(c: Seq<Seq<char>>) -> Seq<char> {
    if c.len() == 0 || c.last() == "/"@ || c.last() == "."@ || c.last() == ".."@ {
        seq![]
    } else {
        c.last()
    }
}

/// The folder a Compose project works in: the parent of the first Compose file, its
/// path resolved, or the configuration's folder.
pub open spec fn working_components(files: Seq<Seq<char>>, dir: Seq<char>) -> Seq<Seq<char>> {
    if files.len() > 0 {
        let c = components(joined(dir, files[0]));
        match parent_of(normalized(c, c.len() as int)) {
            Some(p) => p,
            None => components(dir),
        }
    } else {
        components(dir)
    }
}

pub open spec fn project_char(c: char) -> bool {
    ('a' <= c && c <= 'z') || ('0' <= c && c <= '9') || c == '-' || c == '_'
}

/// `s[..n]` with only `a-z`, `0-9`, `-` and `_` kept.
pub open spec fn project_chars(s: Seq<char>, n: int) -> Seq<char>
    decreases n,
{
    if n <= 0 {
        seq![]
    } else {
        project_chars(s, n - 1) + if project_char(s[n - 1]) {
            seq![s[n - 1]]
        } else {
            seq![]
        }
    }
}

/// The Compose project name: `<workspace>_devcontainer` where the project works in
/// the workspace's `.devcontainer`, else the name of the folder it works in; in lower
/// case, with only `a-z`, `0-9`, `-` and `_` kept.
pub open spec fn project_name_of(files: Seq<Seq<char>>, cwd: Seq<char>, dir: Seq<char>) -> Seq<char> {
    let w = working_components(files, dir);
    let name = match file_name(cwd) {
        Some(n) => n,
        None => seq![],
    };
    let raw = if w == components(joined(cwd, ".devcontainer"@)) {
        name + "_devcontainer"@
    } else {
        last_name(w)
    };
    let l = lowercase(raw);
    project_chars(l, l.len() as int)
}

fn parts_exec(p: &Vec<char>, start: usize) -> (r: Vec<Vec<char>>)
    requires
        start <= p.len(),
    ensures
        r.len() == parts_from(p@, start as int).len(),
        forall|k: int| 0 <= k < r.len() ==> #[trigger] r@[k]@ == parts_from(p@, start as int)[k],
{
    let mut out: Vec<Vec<char>> = Vec::new();
    let ghost mut acc: Seq<Seq<char>> = seq![];
    let mut i = start;
    let dot = chars_of(".");
    loop
        invariant
            start <= i <= p.len(),
            dot@ == "."@,
            out.len() == acc.len(),
            forall|k: int| 0 <= k < out.len() ==> #[trigger] out@[k]@ == acc[k],
            acc + parts_from(p@, i as int) == parts_from(p@, start as int),
        decreases p.len() - i,
    {
        if i >= p.len() {
            assert(acc + parts_from(p@, i as int) =~= acc);
            return out;
        }
        let end = match find_char(p, '/', i) {
            Some(e) => e,
            None => p.len(),
        };
        proof { lemma_first_index_of(p@, '/', i as int); }
        let part = sub_chars(p, i, end);
        let keep = part.len() > 0 && !crate::devcontainer::docker_compose::chars_equal(&part, &dot);
        let ghost before = acc;
        if keep {
            out.push(part);
            proof { acc = acc.push(part@); }
        }
        if end >= p.len() {
            assert(acc =~= parts_from(p@, start as int));
            return out;
        }
        proof {
            assert(acc + parts_from(p@, end + 1) =~= parts_from(p@, start as int));
        }
        i = end + 1;
    }
}

pub fn chars_equal(a: &Vec<char>, b: &Vec<char>) -> (r: bool)
    ensures
        r == (a@ == b@),
{
    if a.len() != b.len() {
        return false;
    }
    let mut i: usize = 0;
    while i < a.len()
        invariant
            i <= a.len(),
            a.len() == b.len(),
            forall|k: int| 0 <= k < i ==> a@[k] == b@[k],
        decreases a.len() - i,
    {
        if a[i] != b[i] {
            return false;
        }
        i += 1;
    }
    assert(a@ =~= b@);
    true
}

pub(crate) fn components_exec(p: &Vec<char>) -> (r: Vec<Vec<char>>)
    ensures
        r.len() == components(p@).len(),
        forall|k: int| 0 <= k < r.len() ==> #[trigger] r@[k]@ == components(p@)[k],
{
    if p.len() > 0 && p[0] == '/' {
        let rest = parts_exec(p, 1);
        let mut out: Vec<Vec<char>> = Vec::new();
        out.push(chars_of("/"));
        let mut k: usize = 0;
        while k < rest.len()
            invariant
                k <= rest.len(),
                out.len() == k + 1,
                out@[0]@ == "/"@,
                forall|j: int| 0 <= j < k ==> #[trigger] out@[j + 1]@ == rest@[j]@,
            decreases rest.len() - k,
        {
            out.push(copy_part(&rest[k]));
            k += 1;
        }
        proof {
            assert forall|j: int| 0 <= j < out.len() implies #[trigger] out@[j]@ == components(p@)[j] by {
                if j > 0 {
                    assert(out@[(j - 1) + 1]@ == rest@[j - 1]@);
                }
            }
        }
        out
    } else if p.len() > 0 && p[0] == '.' && (p.len() == 1 || p[1] == '/') {
        let rest = parts_exec(p, 1);
        let mut out: Vec<Vec<char>> = Vec::new();
        out.push(chars_of("."));
        let mut k: usize = 0;
        while k < rest.len()
            invariant
                k <= rest.len(),
                out.len() == k + 1,
                out@[0]@ == "."@,
                forall|j: int| 0 <= j < k ==> #[trigger] out@[j + 1]@ == rest@[j]@,
            decreases rest.len() - k,
        {
            out.push(copy_part(&rest[k]));
            k += 1;
        }
        proof {
            assert forall|j: int| 0 <= j < out.len() implies #[trigger] out@[j]@ == components(p@)[j] by {
                if j > 0 {
                    assert(out@[(j - 1) + 1]@ == rest@[j - 1]@);
                }
            }
        }
        out
    } else {
        parts_exec(p, 0)
    }
}

fn copy_part(v: &Vec<char>) -> (r: Vec<char>)
    ensures
        r@ == v@,
{
    sub_chars(v, 0, v.len())
}

fn joined_exec(dir: &Vec<char>, f: &Vec<char>) -> (r: Vec<char>)
    ensures
        r@ == joined(dir@, f@),
{
    if f.len() > 0 && f[0] == '/' {
        copy_part(f)
    } else if dir.len() == 0 {
        copy_part(f)
    } else if dir[dir.len() - 1] == '/' {
        let mut r = copy_part(dir);
        push_all(&mut r, f.as_slice());
        r
    } else {
        let mut r = copy_part(dir);
        r.push('/');
        push_all(&mut r, f.as_slice());
        assert(r@ =~= dir@ + "/"@ + f@) by {
            reveal_strlit("/");
        }
        r
    }
}

pub open spec fn views(v: Seq<Vec<char>>) -> Seq<Seq<char>> {
    Seq::new(v.len(), |k: int| v[k]@)
}

fn normalized_exec(c: &Vec<Vec<char>>) -> (r: Vec<Vec<char>>)
    ensures
        views(r@) == normalized(views(c@), c.len() as int),
{
    let dots = chars_of("..");
    let dot = chars_of(".");
    let mut out: Vec<Vec<char>> = Vec::new();
    let mut i: usize = 0;
    while i < c.len()
        invariant
            i <= c.len(),
            dots@ == ".."@,
            dot@ == "."@,
            views(out@) == normalized(views(c@), i as int),
        decreases c.len() - i,
    {
        let ghost before = views(out@);
        assert(views(c@)[i as int] == c@[i as int]@);
        if chars_equal(&c[i], &dots) {
            if out.len() > 0 {
                out.pop();
                assert(views(out@) =~= before.drop_last());
            }
        } else if chars_equal(&c[i], &dot) {
        } else {
            out.push(copy_part(&c[i]));
            assert(views(out@) =~= before.push(c@[i as int]@));
        }
        i += 1;
    }
    out
}

fn components_equal(a: &Vec<Vec<char>>, b: &Vec<Vec<char>>) -> (r: bool)
    ensures
        r == (views(a@) == views(b@)),
{
    if a.len() != b.len() {
        assert(views(a@).len() != views(b@).len());
        return false;
    }
    let mut i: usize = 0;
    while i < a.len()
        invariant
            i <= a.len(),
            a.len() == b.len(),
            forall|k: int| 0 <= k < i ==> a@[k]@ == b@[k]@,
        decreases a.len() - i,
    {
        if !chars_equal(&a[i], &b[i]) {
            assert(views(a@)[i as int] != views(b@)[i as int]);
            return false;
        }
        i += 1;
    }
    assert(views(a@) =~= views(b@));
    true
}

fn to_components(p: &Vec<char>) -> (r: Vec<Vec<char>>)
    ensures
        views(r@) == components(p@),
{
    let r = components_exec(p);
    assert(views(r@) =~= components(p@));
    r
}

fn working_exec(files: &Vec<String>, dir: &Vec<char>) -> (r: Vec<Vec<char>>)
    ensures
        views(r@) == working_components(texts(files@), dir@),
{
    if files.len() == 0 {
        return to_components(dir);
    }
    let f = chars_of(files[0].as_str());
    let j = joined_exec(dir, &f);
    let c = to_components(&j);
    let n = normalized_exec(&c);
    let slash = chars_of("/");
    if n.len() == 0 || chars_equal(&n[n.len() - 1], &slash) {
        proof {
            if n.len() > 0 {
                assert(views(n@).last() == n@[n.len() - 1]@);
            }
        }
        to_components(dir)
    } else {
        let mut p = n;
        let ghost before = views(p@);
        p.pop();
        assert(views(p@) =~= before.drop_last());
        p
    }
}

pub(crate) fn last_name_exec(c: &Vec<Vec<char>>) -> (r: Vec<char>)
    ensures
        r@ == last_name(views(c@)),
{
    if c.len() == 0 {
        return Vec::new();
    }
    let last = &c[c.len() - 1];
    assert(views(c@).last() == last@);
    if chars_equal(last, &chars_of("/")) || chars_equal(last, &chars_of(".")) || chars_equal(last, &chars_of("..")) {
        Vec::new()
    } else {
        copy_part(last)
    }
}

fn project_filter(s: &Vec<char>) -> (r: Vec<char>)
    ensures
        r@ == project_chars(s@, s.len() as int),
{
    let mut out: Vec<char> = Vec::new();
    let mut i: usize = 0;
    while i < s.len()
        invariant
            i <= s.len(),
            out@ == project_chars(s@, i as int),
        decreases s.len() - i,
    {
        let c = s[i];
        if ('a' <= c && c <= 'z') || ('0' <= c && c <= '9') || c == '-' || c == '_' {
            out.push(c);
        }
        assert(out@ =~= project_chars(s@, i + 1));
        i += 1;
    }
    out
}

/// The Compose project name (see [`project_name_of`]).
pub fn project_name(docker_compose_file: &Vec<String>, cwd: &str, devcontainer_dir: &str) -> (r: String)
    ensures
        r@ == project_name_of(texts(docker_compose_file@), cwd@, devcontainer_dir@),
{
    let dir = chars_of(devcontainer_dir);
    let w = working_exec(docker_compose_file, &dir);
    let c = chars_of(cwd);
    let dc = joined_exec(&c, &chars_of(".devcontainer"));
    let target = to_components(&dc);
    let raw: Vec<char> = if components_equal(&w, &target) {
        let mut r = match file_name_exec(&c) {
            Some(n) => n,
            None => Vec::new(),
        };
        push_str(&mut r, "_devcontainer");
        r
    } else {
        last_name_exec(&w)
    };
    let lower = to_lowercase(string_of(raw.as_slice()).as_str());
    let l = chars_of(lower.as_str());
    let f = project_filter(&l);
    string_of(f.as_slice())
}

/// What `docker compose` is run with for a configuration.
#[derive(Debug, PartialEq)]
pub struct ComposeArgs {
    pub project_name: String,
    pub global_args: Vec<String>,
    pub services: Vec<String>,
    pub service: String,
    pub filter1: String,
    pub filter2: String,
    pub override_content: String,
}

/// The script that keeps a service's container running, `$` doubled for Compose.
pub const KEEP_ALIVE_SCRIPT: &'static str = "echo Container started\ntrap \"exit 0\" 15\nexec \"$$@\"\nwhile sleep 1 & wait $$!; do :; done";

/// `s[..n]` with each `"` written `\"` and each line break `\n`.
pub open spec fn quoted_script(s: Seq<char>, n: int) -> Seq<char>
    decreases n,
{
    if n <= 0 {
        seq![]
    } else {
        quoted_script(s, n - 1) + if s[n - 1] == '"' {
            seq!['\\', '"']
        } else if s[n - 1] == '\n' {
            seq!['\\', 'n']
        } else {
            seq![s[n - 1]]
        }
    }
}

/// `values[..n]`, each on a line `      - <value>`.
pub open spec fn list_items(values: Seq<Seq<char>>, n: int) -> Seq<char>
    decreases n,
{
    if n <= 0 {
        seq![]
    } else {
        list_items(values, n - 1) + "\n      - "@ + values[n - 1]
    }
}

/// A YAML list under `key`, nothing where it is empty.
pub open spec fn list_block(key: Seq<char>, values: Seq<Seq<char>>) -> Seq<char> {
    if values.len() == 0 {
        seq![]
    } else {
        "\n    "@ + key + ":"@ + list_items(values, values.len() as int)
    }
}

/// The `-f` arguments of the Compose files `files[..n]`, each joined to `dir`.
pub open spec fn file_args(files: Seq<Seq<char>>, dir: Seq<char>, n: int) -> Seq<Seq<char>>
    decreases n,
{
    if n <= 0 {
        seq![]
    } else {
        file_args(files, dir, n - 1) + seq!["-f"@, joined(dir, files[n - 1])]
    }
}

pub open spec fn user_line(u: Option<String>) -> Seq<char> {
    match u {
        Some(x) => "\n    user: "@ + x@,
        None => seq![],
    }
}

/// The Compose file that overrides the service: the keep-alive entrypoint and the
/// service's `init`, user, `privileged`, capabilities and security options.
pub open spec fn override_text(c: DockerComposeConfig) -> Seq<char> {
    let script = KEEP_ALIVE_SCRIPT@;
    "services:\n  '"@ + c.service@ + "':\n    entrypoint: [\"/bin/sh\", \"-c\", \""@
        + quoted_script(script, script.len() as int) + "\", \"-\"]"@
        + (if c.common.init == Some(true) { "\n    init: true"@ } else { seq![] })
        + user_line(c.common.container_user)
        + (if c.common.privileged == Some(true) { "\n    privileged: true"@ } else { seq![] })
        + list_block("cap_add"@, texts(c.common.cap_add@))
        + list_block("security_opt"@, texts(c.common.security_opt@))
        + "\n"@
}

fn push_list_block(out: &mut Vec<char>, key: &str, values: &Vec<String>)
    ensures
        final(out)@ == old(out)@ + list_block(key@, texts(values@)),
{
    if values.len() == 0 {
        assert(list_block(key@, texts(values@)) =~= Seq::<char>::empty());
        return;
    }
    push_str(out, "\n    ");
    push_str(out, key);
    push_str(out, ":");
    let ghost start = out@;
    let mut i: usize = 0;
    while i < values.len()
        invariant
            i <= values.len(),
            out@ == start + list_items(texts(values@), i as int),
        decreases values.len() - i,
    {
        push_str(out, "\n      - ");
        push_str(out, values[i].as_str());
        assert(out@ =~= start + list_items(texts(values@), i + 1));
        i += 1;
    }
}

fn push_quoted_script(out: &mut Vec<char>)
    ensures
        final(out)@ == old(out)@ + quoted_script(KEEP_ALIVE_SCRIPT@, KEEP_ALIVE_SCRIPT@.len() as int),
{
    let s = chars_of(KEEP_ALIVE_SCRIPT);
    let ghost start = out@;
    let mut i: usize = 0;
    while i < s.len()
        invariant
            i <= s.len(),
            s@ == KEEP_ALIVE_SCRIPT@,
            out@ == start + quoted_script(s@, i as int),
        decreases s.len() - i,
    {
        if s[i] == '"' {
            out.push('\\');
            out.push('"');
        } else if s[i] == '\n' {
            out.push('\\');
            out.push('n');
        } else {
            out.push(s[i]);
        }
        assert(out@ =~= start + quoted_script(s@, i + 1));
        i += 1;
    }
}

fn contains_string(v: &Vec<String>, s: &String) -> (r: bool)
    ensures
        r == texts(v@).contains(s@),
{
    let mut i: usize = 0;
    while i < v.len()
        invariant
            i <= v.len(),
            forall|j: int| 0 <= j < i ==> v@[j]@ != s@,
        decreases v.len() - i,
    {
        if same_text(v[i].as_str(), s.as_str()) {
            assert(texts(v@)[i as int] == s@);
            return true;
        }
        i += 1;
    }
    proof {
        if texts(v@).contains(s@) {
            let j = choose|j: int| 0 <= j < texts(v@).len() && texts(v@)[j] == s@;
            assert(v@[j]@ == s@);
        }
    }
    false
}

/// `r` holds what `docker compose` needs for the configuration `config` of the
/// workspace `cwd` whose configuration folder is `dir`: the project name and the global
/// arguments naming it and the Compose files, the services to start, the main service,
/// the filters that find its container and the override file's text.
pub open spec fn compose_args_fit(r: ComposeArgs, config: DockerComposeConfig, cwd: Seq<char>, dir: Seq<char>) -> bool {
    let name = project_name_of(texts(config.docker_compose_file@), cwd, dir);
    let files = texts(config.docker_compose_file@);
    let run = texts(config.run_services@);
    &&& r.project_name@ == name
    &&& texts(r.global_args@) == seq!["--project-name"@, name] + file_args(files, dir, files.len() as int)
    &&& texts(r.services@) == if run.contains(config.service@) { run } else { run.push(config.service@) }
    &&& r.service@ == config.service@
    &&& r.filter1@ == "label=com.docker.compose.project="@ + name
    &&& r.filter2@ == "label=com.docker.compose.service="@ + config.service@
    &&& r.override_content@ == override_text(config)
}

/// The arguments for running the services of a Compose configuration whose files are
/// relative to `devcontainer_dir`, for the workspace `cwd`.
pub fn compose_args(config: &DockerComposeConfig, cwd: &str, devcontainer_dir: &str) -> (r: ComposeArgs)
    ensures
        compose_args_fit(r, *config, cwd@, devcontainer_dir@),
{
    let project_name = project_name(&config.docker_compose_file, cwd, devcontainer_dir);
    let dir = chars_of(devcontainer_dir);
    let mut global_args: Vec<String> = Vec::new();
    global_args.push("--project-name".to_owned());
    global_args.push(project_name.clone());
    let ghost files = texts(config.docker_compose_file@);
    assert(texts(global_args@) =~= seq!["--project-name"@, project_name@] + file_args(files, devcontainer_dir@, 0));
    let mut i: usize = 0;
    while i < config.docker_compose_file.len()
        invariant
            i <= config.docker_compose_file.len(),
            files == texts(config.docker_compose_file@),
            dir@ == devcontainer_dir@,
            texts(global_args@) == seq!["--project-name"@, project_name@] + file_args(files, devcontainer_dir@, i as int),
        decreases config.docker_compose_file.len() - i,
    {
        let ghost gb = texts(global_args@);
        global_args.push("-f".to_owned());
        let j = joined_exec(&dir, &chars_of(config.docker_compose_file[i].as_str()));
        global_args.push(string_of(j.as_slice()));
        assert(files[i as int] == config.docker_compose_file@[i as int]@);
        assert(texts(global_args@) =~= gb + seq!["-f"@, joined(devcontainer_dir@, files[i as int])]);
        assert(texts(global_args@) =~= seq!["--project-name"@, project_name@] + file_args(files, devcontainer_dir@, i + 1));
        i += 1;
    }
    let mut services: Vec<String> = Vec::new();
    let mut k: usize = 0;
    while k < config.run_services.len()
        invariant
            k <= config.run_services.len(),
            texts(services@) == texts(config.run_services@).take(k as int),
        decreases config.run_services.len() - k,
    {
        let ghost sb = texts(services@);
        let x = config.run_services[k].clone();
        services.push(x);
        assert(texts(services@) =~= sb.push(config.run_services@[k as int]@));
        assert(texts(config.run_services@).take(k + 1) =~= texts(config.run_services@).take(k as int).push(config.run_services@[k as int]@));
        assert(texts(services@) =~= texts(config.run_services@).take(k + 1));
        k += 1;
    }
    assert(texts(config.run_services@).take(config.run_services.len() as int) =~= texts(config.run_services@));
    if !contains_string(&config.run_services, &config.service) {
        let ghost before = texts(services@);
        services.push(config.service.clone());
        assert(texts(services@) =~= before.push(config.service@));
    }
    let mut f1: Vec<char> = Vec::new();
    push_str(&mut f1, "label=com.docker.compose.project=");
    push_str(&mut f1, project_name.as_str());
    let mut f2: Vec<char> = Vec::new();
    push_str(&mut f2, "label=com.docker.compose.service=");
    push_str(&mut f2, config.service.as_str());
    let mut o: Vec<char> = Vec::new();
    push_str(&mut o, "services:\n  '");
    push_str(&mut o, config.service.as_str());
    push_str(&mut o, "':\n    entrypoint: [\"/bin/sh\", \"-c\", \"");
    push_quoted_script(&mut o);
    push_str(&mut o, "\", \"-\"]");
    let ghost before_flags = o@;
    if config.common.init == Some(true) {
        push_str(&mut o, "\n    init: true");
    }
    match &config.common.container_user {
        Some(u) => {
            push_str(&mut o, "\n    user: ");
            push_str(&mut o, u.as_str());
        },
        None => {},
    }
    if config.common.privileged == Some(true) {
        push_str(&mut o, "\n    privileged: true");
    }
    push_list_block(&mut o, "cap_add", &config.common.cap_add);
    push_list_block(&mut o, "security_opt", &config.common.security_opt);
    push_str(&mut o, "\n");
    proof { reveal_strlit(""); }
    assert(o@ =~= override_text(*config));
    ComposeArgs {
        project_name,
        global_args,
        services,
        service: config.service.clone(),
        filter1: string_of(f1.as_slice()),
        filter2: string_of(f2.as_slice()),
        override_content: string_of(o.as_slice()),
    }
}

/// How a Compose service's image is built.
#[derive(Debug, PartialEq)]
pub struct BuildResolved {
    pub dockerfile: String,
    pub context: String,
    pub image: String,
}

/// A service of a resolved Compose project: built, or run from an image.
#[derive(Debug, PartialEq)]
pub enum ServiceResolved {
    Build { build: BuildResolved },
    Image { image: String },
}

/// What a service is, as plain values.
pub enum ServiceModel {
    Build(Seq<char>, Seq<char>, Seq<char>),
    Image(Seq<char>),
}

pub open spec fn service_view(s: ServiceResolved) -> ServiceModel {
    match s {
        ServiceResolved::Build { build } => ServiceModel::Build(build.dockerfile@, build.context@, build.image@),
        ServiceResolved::Image { image } => ServiceModel::Image(image@),
    }
}

/// A service of `docker compose config`: built where its `build` has a `dockerfile`
/// and a `context` (its image named `image`, else `default_image`), else run from its
/// `image`; nothing where it has neither.
pub open spec fn service_of(v: JsonValue, default_image: Seq<char>) -> Option<ServiceModel> {
    let image = req_string_of(v, "image"@);
    let build = match member(v, "build"@) {
        Some(b) => match (req_string_of(b, "dockerfile"@), req_string_of(b, "context"@)) {
            (Some(d), Some(c)) => Some((d, c)),
            _ => None,
        },
        None => None,
    };
    match build {
        Some((d, c)) => Some(ServiceModel::Build(d, c, match image {
            Some(i) => i,
            None => default_image,
        })),
        None => match image {
            Some(i) => Some(ServiceModel::Image(i)),
            None => None,
        },
    }
}

impl ServiceResolved {
    pub fn from_value(value: &Value, default_image: &str) -> (r: Option<ServiceResolved>)
        ensures
            match service_of(value@, default_image@) {
                Some(m) => r matches Some(x) && service_view(x) == m,
                None => r is None,
            },
    {
        let image = req_string(value, "image");
        let build = match value.get("build") {
            Some(b) => match (req_string(b, "dockerfile"), req_string(b, "context")) {
                (Some(d), Some(c)) => Some((d, c)),
                _ => None,
            },
            None => None,
        };
        match build {
            Some((dockerfile, context)) => {
                let image = match image {
                    Some(i) => i,
                    None => default_image.to_owned(),
                };
                Some(ServiceResolved::Build { build: BuildResolved { dockerfile, context, image } })
            },
            None => match image {
                Some(i) => Some(ServiceResolved::Image { image: i }),
                None => None,
            },
        }
    }

    /// What a feature image builds on: the service's image, or its Dockerfile, the
    /// `dockerfile` joined to the `context`.
    pub fn feature_base_source(&self) -> (r: FeatureBaseSource)
        ensures
            match *self {
                ServiceResolved::Image { image } => r matches FeatureBaseSource::Image(i) && i@ == image@,
                ServiceResolved::Build { build } => r matches FeatureBaseSource::DockerfilePath(p)
                    && p@ == joined(build.context@, build.dockerfile@),
            },
    {
        match self {
            ServiceResolved::Image { image } => FeatureBaseSource::Image(image.clone()),
            ServiceResolved::Build { build } => {
                let p = joined_exec(&chars_of(build.context.as_str()), &chars_of(build.dockerfile.as_str()));
                FeatureBaseSource::DockerfilePath(string_of(p.as_slice()))
            },
        }
    }
}

/// What the image with the features installed builds on.
#[derive(Debug, PartialEq)]
pub enum FeatureBaseSource {
    Image(String),
    DockerfilePath(String),
}

/// The services of a resolved Compose project, each name once.
#[derive(Debug, PartialEq)]
pub struct ComposeResolved {
    pub services: Vec<(String, ServiceResolved)>,
}

/// The project name of `docker compose config` output.
pub open spec fn compose_project(v: JsonValue) -> Seq<char> {
    match member(v, "name"@) {
        Some(JsonValue::Str(s)) => s,
        _ => seq![],
    }
}

/// Whether each service of `o` is valid, its image defaulting to `<project>-<name>`.
pub open spec fn services_valid(o: JsonValue, project: Seq<char>) -> bool {
    match o {
        JsonValue::Object(keys, values) => forall|i: int|
            0 <= i < values.len() ==> #[trigger] service_of(values[i], project + "-"@ + keys[i]) is Some,
        _ => false,
    }
}

/// The services listed by name, each name once, each as the last service of that name.
pub open spec fn services_listed(o: JsonValue, project: Seq<char>, x: Seq<(String, ServiceResolved)>) -> bool {
    &&& forall|a: int, b: int| 0 <= a < b < x.len() ==> #[trigger] x[a].0@ != #[trigger] x[b].0@
    &&& forall|a: int| 0 <= a < x.len() ==> (member(o, #[trigger] x[a].0@) matches Some(m)
        && service_of(m, project + "-"@ + x[a].0@) == Some(service_view(x[a].1)))
    &&& forall|k: Seq<char>| #[trigger] member(o, k) is Some ==> exists|a: int| 0 <= a < x.len() && x[a].0@ == k
}

proof fn lemma_last_key_found(keys: Seq<Seq<char>>, key: Seq<char>, n: int)
    requires
        0 <= n <= keys.len(),
    ensures
        last_key_index(keys, key, n) matches Some(i) ==> 0 <= i < n && keys[i] == key
            && forall|j: int| i < j < n ==> keys[j] != key,
    decreases n,
{
    if n > 0 {
        lemma_last_key_found(keys, key, n - 1);
    }
}

impl ComposeResolved {
    /// The services of the JSON that `docker compose config` prints; `None` where it
    /// is not JSON, has no `services` object, or a service is neither built nor an image.
    pub fn parse(json: &str) -> (r: Option<ComposeResolved>)
        ensures
            match parse_text(json@) {
                Err(_) => r is None,
                Ok(d) => {
                    let v = node_value(d.root);
                    let project = compose_project(v);
                    match member(v, "services"@) {
                        Some(o) => if services_valid(o, project) {
                            r matches Some(c) && services_listed(o, project, c.services@)
                        } else {
                            r is None
                        },
                        None => r is None,
                    }
                },
            },
    {
        let document = match parse(json) {
            Ok(d) => d,
            Err(_) => return None,
        };
        let value = document.value();
        let project: String = match value.get("name") {
            Some(n) => match n.as_str() {
                Some(p) => p.to_owned(),
                None => String::new(),
            },
            None => String::new(),
        };
        let ghost pv = compose_project(value@);
        assert(project@ == pv) by {
            reveal_strlit("");
        }
        let services = match value.get("services") {
            Some(s) => s,
            None => return None,
        };
        proof { lemma_object_view(*services); }
        let members = match services.as_object() {
            Some(m) => m,
            None => return None,
        };
        let ghost keys = member_keys(members@);
        let ghost vals = Seq::new(members.len() as nat, |k: int| members@[k].1@);
        proof {
            if let JsonValue::Object(k, x) = services@ {
                assert(k =~= keys);
                assert(x =~= vals);
            }
        }
        let mut out: Vec<(String, ServiceResolved)> = Vec::new();
        let ghost mut src: Seq<int> = Seq::empty();
        let mut i: usize = 0;
        while i < members.len()
            invariant
                i <= members.len(),
                keys == member_keys(members@),
                vals == Seq::new(members.len() as nat, |k: int| members@[k].1@),
                services@ == JsonValue::Object(keys, vals),
                project@ == pv,
                pv == compose_project(value@),
                member(value@, "services"@) == Some(services@),
                parse_text(json@) == Ok::<DocumentModel, JsoncError>(document@),
                value@ == node_value(document@.root),
                forall|idx: int| 0 <= idx < i ==> #[trigger] service_of(vals[idx], pv + "-"@ + keys[idx]) is Some,
                src.len() == out.len(),
                forall|a: int, b: int| 0 <= a < b < out.len() ==> #[trigger] out@[a].0@ != #[trigger] out@[b].0@,
                forall|a: int| 0 <= a < out.len() ==> 0 <= #[trigger] src[a] < i && is_last_member(keys, src[a])
                    && out@[a].0@ == keys[src[a]] && service_of(vals[src[a]], pv + "-"@ + keys[src[a]]) == Some(service_view(out@[a].1)),
                forall|idx: int| 0 <= idx < i && is_last_member(keys, idx) ==> exists|a: int| 0 <= a < out.len() && #[trigger] src[a] == idx,
            decreases members.len() - i,
        {
            let mut default_image: Vec<char> = chars_of(project.as_str());
            push_str(&mut default_image, "-");
            push_str(&mut default_image, members[i].0.as_str());
            let di = string_of(default_image.as_slice());
            proof { let _ = members@[i as int]; }
            match ServiceResolved::from_value(&members[i].1, di.as_str()) {
                None => {
                    assert(default_image@ =~= pv + "-"@ + keys[i as int]);
                    assert(service_of(vals[i as int], pv + "-"@ + keys[i as int]) is None);
                    assert(!services_valid(services@, pv));
                    return None;
                },
                Some(svc) => {
                    if is_last_at(members, i) {
                        let name = members[i].0.clone();
                        proof {
                            assert forall|a: int| 0 <= a < out.len() implies out@[a].0@ != name@ by {
                                let idx = src[a];
                                if keys[idx] == keys[i as int] {
                                    assert(last_key_index(keys, keys[i as int], keys.len() as int) == Some(idx));
                                }
                            }
                        }
                        let ghost ob = out@;
                        out.push((name, svc));
                        proof {
                            let old_src = src;
                            src = src.push(i as int);
                            assert forall|a: int, b: int| 0 <= a < b < out.len() implies #[trigger] out@[a].0@ != #[trigger] out@[b].0@ by {
                                if b < ob.len() {
                                    assert(ob[a].0@ != ob[b].0@);
                                }
                            }
                            assert forall|idx: int| 0 <= idx < i + 1 && is_last_member(keys, idx) implies exists|a: int|
                                0 <= a < out.len() && #[trigger] src[a] == idx by {
                                if idx == i {
                                    assert(src[src.len() - 1] == idx);
                                } else {
                                    let a = choose|a: int| 0 <= a < old_src.len() && #[trigger] old_src[a] == idx;
                                    assert(src[a] == idx);
                                }
                            }
                        }
                    }
                },
            }
            i += 1;
        }
        proof {
            let o = services@;
            let x = out@;
            assert forall|a: int| 0 <= a < x.len() implies (member(o, #[trigger] x[a].0@) matches Some(m)
                && service_of(m, pv + "-"@ + x[a].0@) == Some(service_view(x[a].1))) by {
                let idx = src[a];
                assert(last_key_index(keys, x[a].0@, keys.len() as int) == Some(idx));
            }
            assert forall|k: Seq<char>| #[trigger] member(o, k) is Some implies exists|a: int| 0 <= a < x.len() && x[a].0@ == k by {
                lemma_last_key_found(keys, k, keys.len() as int);
                let idx = last_key_index(keys, k, keys.len() as int)->0;
                assert(is_last_member(keys, idx));
                let a = choose|a: int| 0 <= a < x.len() && #[trigger] src[a] == idx;
                assert(x[a].0@ == k);
            }
        }
        Some(ComposeResolved { services: out })
    }
}

} // verus!
