use vstd::prelude::*;

use crate::docker::tag::{file_name, file_name_exec};
use crate::features::source::{find_char, first_index_of, lemma_first_index_of};
use crate::text::{chars_of, push_all, push_str, same_text, starts_at, string_of, sub_chars};

verus! {

/// A `${...}` variable of a devcontainer.json.
pub enum DevcontainerVariable {
    LocalWorkspaceFolder,
    LocalWorkspaceFolderBasename,
    ContainerWorkspaceFolder,
    ContainerWorkspaceFolderBasename,
    LocalEnv(Vec<char>, Option<Vec<char>>),
    ContainerEnv(Vec<char>, Option<Vec<char>>),
}

/// The value of the last entry named `name` of an environment.
pub open spec fn lookup(env: Seq<(String, String)>, name: Seq<char>, n: int) -> Option<Seq<char>>
    decreases n,
{
    if n <= 0 {
        None
    } else if env[n - 1].0@ == name {
        Some(env[n - 1].1@)
    } else {
        lookup(env, name, n - 1)
    }
}

pub open spec fn env_value(env: Seq<(String, String)>, name: Seq<char>, default: Option<Seq<char>>) -> Seq<char> {
    match lookup(env, name, env.len() as int) {
        Some(v) => v,
        None => match default {
            Some(d) => d,
            None => Seq::empty(),
        },
    }
}

/// The last component of a path, or nothing.
pub open spec fn basename(p: Seq<char>) -> Seq<char> {
    match file_name(p) {
        Some(n) => n,
        None => Seq::empty(),
    }
}

/// What the inside of `${...}` resolves to, or `None` where it names no variable.
pub open spec fn resolve_token(
    content: Seq<char>,
    local_folder: Seq<char>,
    container_folder: Seq<char>,
    container_env: Seq<(String, String)>,
    local_env: Seq<(String, String)>,
) -> Option<Seq<char>> {
    if content == "localWorkspaceFolder"@ {
        Some(local_folder)
    } else if content == "localWorkspaceFolderBasename"@ {
        Some(basename(local_folder))
    } else if content == "containerWorkspaceFolder"@ {
        Some(container_folder)
    } else if content == "containerWorkspaceFolderBasename"@ {
        Some(basename(container_folder))
    } else {
        match first_index_of(content, ':', 0) {
            None => None,
            Some(i) => {
                let scope = content.take(i);
                let rest = content.skip(i + 1);
                let (name, default) = match first_index_of(rest, ':', 0) {
                    Some(j) => (rest.take(j), Some(rest.skip(j + 1))),
                    None => (rest, None),
                };
                if scope == "localEnv"@ {
                    Some(env_value(local_env, name, default))
                } else if scope == "containerEnv"@ {
                    Some(env_value(container_env, name, default))
                } else {
                    None
                }
            },
        }
    }
}

/// Index of the first `${` in `s` from `i` on.
pub open spec fn find_open(s: Seq<char>, i: int) -> Option<int>
    decreases s.len() - i,
{
    if i < 0 || i + 1 >= s.len() {
        None
    } else if s[i] == '$' && s[i + 1] == '{' {
        Some(i)
    } else {
        find_open(s, i + 1)
    }
}

/// A piece between two `${`: a variable up to its `}` and the text after it, or
/// the piece as written where it has no `}` or names no variable.
pub open spec fn expand_piece(
    part: Seq<char>,
    lf: Seq<char>,
    cf: Seq<char>,
    ce: Seq<(String, String)>,
    le: Seq<(String, String)>,
) -> Seq<char> {
    match first_index_of(part, '}', 0) {
        None => "${"@ + part,
        Some(j) => match resolve_token(part.take(j), lf, cf, ce, le) {
            Some(v) => v + part.skip(j + 1),
            None => "${"@ + part.take(j) + "}"@ + part.skip(j + 1),
        },
    }
}

/// The pieces of `s[i..]`, split at `${`, each expanded.
pub open spec fn expand_pieces(
    s: Seq<char>,
    i: int,
    lf: Seq<char>,
    cf: Seq<char>,
    ce: Seq<(String, String)>,
    le: Seq<(String, String)>,
) -> Seq<char>
    decreases s.len() - i,
{
    match find_open(s, i) {
        Some(k) => if i <= k && k + 2 <= s.len() {
            expand_piece(s.subrange(i, k), lf, cf, ce, le) + expand_pieces(s, k + 2, lf, cf, ce, le)
        } else {
            Seq::empty()
        },
        None => if 0 <= i <= s.len() {
            expand_piece(s.subrange(i, s.len() as int), lf, cf, ce, le)
        } else {
            Seq::empty()
        },
    }
}

/// `value` with its `${...}` variables replaced by their values.
pub open spec fn expanded(
    value: Seq<char>,
    lf: Seq<char>,
    cf: Seq<char>,
    ce: Seq<(String, String)>,
    le: Seq<(String, String)>,
) -> Seq<char> {
    match find_open(value, 0) {
        None => value,
        Some(k) => value.take(k) + expand_pieces(value, k + 2, lf, cf, ce, le),
    }
}

proof fn lemma_find_open(s: Seq<char>, i: int)
    requires
        0 <= i,
    ensures
        find_open(s, i) matches Some(k) ==> i <= k && k + 2 <= s.len(),
    decreases s.len() - i,
{
    if i + 1 < s.len() {
        lemma_find_open(s, i + 1);
    }
}

fn find_open_exec(s: &Vec<char>, i: usize) -> (r: Option<usize>)
    ensures
        match r {
            Some(k) => find_open(s@, i as int) == Some(k as int),
            None => find_open(s@, i as int) is None,
        },
{
    let mut k = i;
    while k < s.len() && s.len() - k >= 2
        invariant
            i <= k,
            find_open(s@, i as int) == find_open(s@, k as int),
        decreases s.len() - k,
    {
        if s[k] == '$' && s[k + 1] == '{' {
            return Some(k);
        }
        k += 1;
    }
    None
}

fn lookup_exec(env: &[(String, String)], name: &Vec<char>) -> (r: Option<String>)
    ensures
        match lookup(env@, name@, env.len() as int) {
            Some(v) => r matches Some(x) && x@ == v,
            None => r is None,
        },
{
    let n_str = string_of(name.as_slice());
    let mut n = env.len();
    while n > 0
        invariant
            n <= env.len(),
            n_str@ == name@,
            lookup(env@, name@, env.len() as int) == lookup(env@, name@, n as int),
        decreases n,
    {
        if same_text(env[n - 1].0.as_str(), n_str.as_str()) {
            return Some(env[n - 1].1.clone());
        }
        n -= 1;
    }
    None
}

fn env_value_exec(env: &[(String, String)], name: &Vec<char>, default: &Option<Vec<char>>) -> (r: Vec<char>)
    ensures
        r@ == env_value(
            env@,
            name@,
            match default {
                Some(d) => Some(d@),
                None => None,
            },
        ),
{
    match lookup_exec(env, name) {
        Some(v) => chars_of(v.as_str()),
        None => match default {
            Some(d) => sub_chars(d, 0, d.len()),
            None => Vec::new(),
        },
    }
}

fn basename_exec(p: &Vec<char>) -> (r: Vec<char>)
    ensures
        r@ == basename(p@),
{
    match file_name_exec(p) {
        Some(n) => n,
        None => Vec::new(),
    }
}

fn is_text(v: &Vec<char>, s: &str) -> (r: bool)
    ensures
        r == (v@ == s@),
{
    same_text(string_of(v.as_slice()).as_str(), s)
}

fn resolve_token_exec(
    content: &Vec<char>,
    local_folder: &Vec<char>,
    container_folder: &Vec<char>,
    container_env: &[(String, String)],
    local_env: &[(String, String)],
) -> (r: Option<Vec<char>>)
    ensures
        match resolve_token(content@, local_folder@, container_folder@, container_env@, local_env@) {
            Some(v) => r matches Some(x) && x@ == v,
            None => r is None,
        },
{
    if is_text(content, "localWorkspaceFolder") {
        return Some(sub_chars(local_folder, 0, local_folder.len()));
    }
    if is_text(content, "localWorkspaceFolderBasename") {
        return Some(basename_exec(local_folder));
    }
    if is_text(content, "containerWorkspaceFolder") {
        return Some(sub_chars(container_folder, 0, container_folder.len()));
    }
    if is_text(content, "containerWorkspaceFolderBasename") {
        return Some(basename_exec(container_folder));
    }
    let i = match find_char(content, ':', 0) {
        None => return None,
        Some(i) => i,
    };
    proof { lemma_first_index_of(content@, ':', 0); }
    assert(i < content.len());
    let scope = sub_chars(content, 0, i);
    let rest = sub_chars(content, i + 1, content.len());
    assert(scope@ =~= content@.take(i as int));
    assert(rest@ =~= content@.skip(i + 1));
    let (name, default) = match find_char(&rest, ':', 0) {
        Some(j) => {
            proof { lemma_first_index_of(rest@, ':', 0); }
            let name = sub_chars(&rest, 0, j);
            let d = sub_chars(&rest, j + 1, rest.len());
            assert(name@ =~= rest@.take(j as int));
            assert(d@ =~= rest@.skip(j + 1));
            (name, Some(d))
        },
        None => (sub_chars(&rest, 0, rest.len()), None),
    };
    assert(rest@.subrange(0, rest.len() as int) =~= rest@);
    if is_text(&scope, "localEnv") {
        Some(env_value_exec(local_env, &name, &default))
    } else if is_text(&scope, "containerEnv") {
        Some(env_value_exec(container_env, &name, &default))
    } else {
        None
    }
}

fn push_piece(
    out: &mut Vec<char>,
    part: &Vec<char>,
    lf: &Vec<char>,
    cf: &Vec<char>,
    ce: &[(String, String)],
    le: &[(String, String)],
)
    ensures
        final(out)@ == old(out)@ + expand_piece(part@, lf@, cf@, ce@, le@),
{
    match find_char(part, '}', 0) {
        None => {
            push_str(out, "${");
            push_all(out, part.as_slice());
        },
        Some(j) => {
            proof { lemma_first_index_of(part@, '}', 0); }
            assert(j < part.len());
            let content = sub_chars(part, 0, j);
            let tail = sub_chars(part, j + 1, part.len());
            assert(content@ =~= part@.take(j as int));
            assert(tail@ =~= part@.skip(j + 1));
            match resolve_token_exec(&content, lf, cf, ce, le) {
                Some(v) => {
                    push_all(out, v.as_slice());
                },
                None => {
                    push_str(out, "${");
                    push_all(out, content.as_slice());
                    push_str(out, "}");
                },
            }
            push_all(out, tail.as_slice());
        },
    }
    assert(final(out)@ =~= old(out)@ + expand_piece(part@, lf@, cf@, ce@, le@));
}

/// `value` with each `${...}` variable replaced: the local and container workspace
/// folders and their last components, and `localEnv:` and `containerEnv:` variables
/// (`${localEnv:NAME}` or `${localEnv:NAME:default}`) looked up in `local_env` and
/// `container_env` (the last entry of a name counts). Unknown variables and a `${`
/// without a `}` stay as written.
pub fn expand_variables(
    value: &str,
    local_folder: &str,
    container_workspace_folder: &str,
    container_env: &[(String, String)],
    local_env: &[(String, String)],
) -> (r: String)
    ensures
        r@ == expanded(value@, local_folder@, container_workspace_folder@, container_env@, local_env@),
{
    let s = chars_of(value);
    let lf = chars_of(local_folder);
    let cf = chars_of(container_workspace_folder);
    let first = match find_open_exec(&s, 0) {
        None => return value.to_owned(),
        Some(k) => k,
    };
    proof { lemma_find_open(s@, 0); }
    assert(first + 2 <= s.len());
    let mut out = sub_chars(&s, 0, first);
    assert(out@ =~= s@.take(first as int));
    let mut i = first + 2;
    loop
        invariant
            first + 2 <= i <= s.len(),
            s@ == value@,
            lf@ == local_folder@,
            cf@ == container_workspace_folder@,
            out@ + expand_pieces(s@, i as int, lf@, cf@, container_env@, local_env@) == expanded(
                value@,
                local_folder@,
                container_workspace_folder@,
                container_env@,
                local_env@,
            ),
        decreases s.len() - i,
    {
        proof { lemma_find_open(s@, i as int); }
        match find_open_exec(&s, i) {
            Some(k) => {
                assert(i <= k && k + 2 <= s.len());
                let part = sub_chars(&s, i, k);
                let ghost before = out@;
                push_piece(&mut out, &part, &lf, &cf, container_env, local_env);
                assert(out@ + expand_pieces(s@, k + 2, lf@, cf@, container_env@, local_env@) =~= before
                    + expand_pieces(s@, i as int, lf@, cf@, container_env@, local_env@));
                i = k + 2;
            },
            None => {
                let part = sub_chars(&s, i, s.len());
                let ghost before = out@;
                push_piece(&mut out, &part, &lf, &cf, container_env, local_env);
                assert(out@ =~= before + expand_pieces(s@, i as int, lf@, cf@, container_env@, local_env@));
                return string_of(out.as_slice());
            },
        }
    }
}

} // verus!
