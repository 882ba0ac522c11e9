use vstd::prelude::*;

use super::variables::{expanded, find_open, lookup, resolve_token};
use crate::features::source::first_index_of;

verus! {

/// The first `c` from `i` on is at `k` where `k` holds one and nothing before it does.
proof fn lemma_first_index_at(s: Seq<char>, c: char, i: int, k: int)
    requires
        0 <= i <= k < s.len(),
        s[k] == c,
        forall|j: int| i <= j < k ==> s[j] != c,
    ensures
        first_index_of(s, c, i) == Some(k),
    decreases k - i,
{
    if i < k {
        lemma_first_index_at(s, c, i + 1, k);
    }
}

/// Where an environment has no entry named `name` among its first `n`, it has no value for it.
proof fn lemma_lookup_unset(env: Seq<(String, String)>, name: Seq<char>, n: int)
    requires
        n <= env.len(),
        forall|k: int| 0 <= k < n ==> (#[trigger] env[k]).0@ != name,
    ensures
        lookup(env, name, n) is None,
    decreases n,
{
    if n > 0 {
        lemma_lookup_unset(env, name, n - 1);
    }
}

/// Where entry `k` is the last one named `name` among the first `n`, its value is the one.
proof fn lemma_lookup_last(env: Seq<(String, String)>, name: Seq<char>, n: int, k: int)
    requires
        0 <= k < n <= env.len(),
        env[k].0@ == name,
        forall|j: int| k < j < n ==> (#[trigger] env[j]).0@ != name,
    ensures
        lookup(env, name, n) == Some(env[k].1@),
    decreases n,
{
    if n - 1 > k {
        lemma_lookup_last(env, name, n - 1, k);
    }
}

/// `${scope:name:default}` (the default part only where `default` is given) as it
/// stands between the braces.
pub open spec fn env_variable(scope: Seq<char>, name: Seq<char>, default: Option<Seq<char>>) -> Seq<char> {
    match default {
        Some(d) => scope + ":"@ + name + ":"@ + d,
        None => scope + ":"@ + name,
    }
}

/// Where `name` has no `:`, `${scope:name...}` splits into that scope, name and default.
proof fn lemma_env_variable_split(
    scope: Seq<char>,
    name: Seq<char>,
    default: Option<Seq<char>>,
    lf: Seq<char>,
    cf: Seq<char>,
    ce: Seq<(String, String)>,
    le: Seq<(String, String)>,
)
    requires
        scope == "localEnv"@ || scope == "containerEnv"@,
        forall|k: int| 0 <= k < name.len() ==> name[k] != ':',
    ensures
        resolve_token(env_variable(scope, name, default), lf, cf, ce, le) == (if scope == "localEnv"@ {
            Some(match lookup(le, name, le.len() as int) {
                Some(v) => v,
                None => match default {
                    Some(d) => d,
                    None => Seq::empty(),
                },
            })
        } else {
            Some(match lookup(ce, name, ce.len() as int) {
                Some(v) => v,
                None => match default {
                    Some(d) => d,
                    None => Seq::empty(),
                },
            })
        }),
{
    reveal_strlit("localEnv");
    reveal_strlit("containerEnv");
    reveal_strlit(":");
    reveal_strlit("localWorkspaceFolder");
    reveal_strlit("localWorkspaceFolderBasename");
    reveal_strlit("containerWorkspaceFolder");
    reveal_strlit("containerWorkspaceFolderBasename");
    let content = env_variable(scope, name, default);
    let m = scope.len() as int;
    assert(content[m] == ':');
    assert(forall|j: int| 0 <= j < m ==> content[j] == scope[j]);
    assert(forall|j: int| 0 <= j < m ==> scope[j] != ':');
    // none of the folder variables: they have no `:` where this one has it
    assert(content != "localWorkspaceFolder"@) by {
        if content == "localWorkspaceFolder"@ { assert("localWorkspaceFolder"@[m] != ':'); }
    }
    assert(content != "localWorkspaceFolderBasename"@) by {
        if content == "localWorkspaceFolderBasename"@ { assert("localWorkspaceFolderBasename"@[m] != ':'); }
    }
    assert(content != "containerWorkspaceFolder"@) by {
        if content == "containerWorkspaceFolder"@ { assert("containerWorkspaceFolder"@[m] != ':'); }
    }
    assert(content != "containerWorkspaceFolderBasename"@) by {
        if content == "containerWorkspaceFolderBasename"@ { assert("containerWorkspaceFolderBasename"@[m] != ':'); }
    }
    lemma_first_index_at(content, ':', 0, m);
    assert(content.take(m) =~= scope);
    let rest = content.skip(m + 1);
    match default {
        Some(d) => {
            assert(rest =~= name + ":"@ + d);
            lemma_first_index_at(rest, ':', 0, name.len() as int);
            assert(rest.take(name.len() as int) =~= name);
            assert(rest.skip(name.len() + 1int) =~= d);
        },
        None => {
            assert(rest =~= name);
            if first_index_of(rest, ':', 0) is Some {
                crate::features::source::lemma_first_index_of(rest, ':', 0);
            }
        },
    }
}

/// `${localEnv:NAME}` and `${localEnv:NAME:default}` stand for the value of the last
/// entry named `NAME` of the local environment whenever there is one; only where the
/// local environment has no such entry do they stand for the default (nothing where
/// none is given). The container's environment has no say.
pub proof fn law_local_env_variable(
    name: Seq<char>,
    default: Option<Seq<char>>,
    lf: Seq<char>,
    cf: Seq<char>,
    ce: Seq<(String, String)>,
    le: Seq<(String, String)>,
)
    requires
        forall|k: int| 0 <= k < name.len() ==> name[k] != ':',
    ensures
        forall|k: int| 0 <= k < le.len() && (#[trigger] le[k]).0@ == name
            && (forall|j: int| k < j < le.len() ==> (#[trigger] le[j]).0@ != name)
            ==> resolve_token(env_variable("localEnv"@, name, default), lf, cf, ce, le) == Some(le[k].1@),
        (forall|k: int| 0 <= k < le.len() ==> (#[trigger] le[k]).0@ != name)
            ==> resolve_token(env_variable("localEnv"@, name, default), lf, cf, ce, le) == Some(
            match default {
                Some(d) => d,
                None => Seq::empty(),
            },
        ),
{
    lemma_env_variable_split("localEnv"@, name, default, lf, cf, ce, le);
    assert forall|k: int| 0 <= k < le.len() && (#[trigger] le[k]).0@ == name
        && (forall|j: int| k < j < le.len() ==> (#[trigger] le[j]).0@ != name)
        implies resolve_token(env_variable("localEnv"@, name, default), lf, cf, ce, le) == Some(le[k].1@) by {
        lemma_lookup_last(le, name, le.len() as int, k);
    }
    if forall|k: int| 0 <= k < le.len() ==> (#[trigger] le[k]).0@ != name {
        lemma_lookup_unset(le, name, le.len() as int);
    }
}

/// `${containerEnv:NAME}` and `${containerEnv:NAME:default}` stand for the value of the
/// last entry named `NAME` of the container's environment whenever there is one, else
/// for the default (nothing where none is given).
pub proof fn law_container_env_variable(
    name: Seq<char>,
    default: Option<Seq<char>>,
    lf: Seq<char>,
    cf: Seq<char>,
    ce: Seq<(String, String)>,
    le: Seq<(String, String)>,
)
    requires
        forall|k: int| 0 <= k < name.len() ==> name[k] != ':',
    ensures
        forall|k: int| 0 <= k < ce.len() && (#[trigger] ce[k]).0@ == name
            && (forall|j: int| k < j < ce.len() ==> (#[trigger] ce[j]).0@ != name)
            ==> resolve_token(env_variable("containerEnv"@, name, default), lf, cf, ce, le) == Some(ce[k].1@),
        (forall|k: int| 0 <= k < ce.len() ==> (#[trigger] ce[k]).0@ != name)
            ==> resolve_token(env_variable("containerEnv"@, name, default), lf, cf, ce, le) == Some(
            match default {
                Some(d) => d,
                None => Seq::empty(),
            },
        ),
{
    reveal_strlit("localEnv");
    reveal_strlit("containerEnv");
    assert("containerEnv"@ != "localEnv"@) by {
        assert("containerEnv"@.len() != "localEnv"@.len());
    }
    lemma_env_variable_split("containerEnv"@, name, default, lf, cf, ce, le);
    assert forall|k: int| 0 <= k < ce.len() && (#[trigger] ce[k]).0@ == name
        && (forall|j: int| k < j < ce.len() ==> (#[trigger] ce[j]).0@ != name)
        implies resolve_token(env_variable("containerEnv"@, name, default), lf, cf, ce, le) == Some(ce[k].1@) by {
        lemma_lookup_last(ce, name, ce.len() as int, k);
    }
    if forall|k: int| 0 <= k < ce.len() ==> (#[trigger] ce[k]).0@ != name {
        lemma_lookup_unset(ce, name, ce.len() as int);
    }
}

/// With no `$` in `s[i..]`, no `${` starts there.
proof fn lemma_no_open(s: Seq<char>, i: int)
    requires
        0 <= i,
        forall|k: int| i <= k < s.len() ==> s[k] != '$',
    ensures
        find_open(s, i) is None,
    decreases s.len() - i,
{
    if i + 1 < s.len() {
        lemma_no_open(s, i + 1);
    }
}

/// With no `$` in `s[i..k]` and `${` at `k`, the first `${` from `i` on is at `k`.
proof fn lemma_open_at(s: Seq<char>, i: int, k: int)
    requires
        0 <= i <= k,
        k + 1 < s.len(),
        s[k] == '$' && s[k + 1] == '{',
        forall|j: int| i <= j < k ==> s[j] != '$',
    ensures
        find_open(s, i) == Some(k),
    decreases k - i,
{
    if i < k {
        lemma_open_at(s, i + 1, k);
    }
}

/// A text with one variable `${content}` and no other `$` becomes the text around it
/// with the variable's value in its place; a variable that names nothing stays as
/// written.
pub proof fn law_one_variable_expanded(
    before: Seq<char>,
    content: Seq<char>,
    after: Seq<char>,
    lf: Seq<char>,
    cf: Seq<char>,
    ce: Seq<(String, String)>,
    le: Seq<(String, String)>,
)
    requires
        forall|k: int| 0 <= k < before.len() ==> before[k] != '$',
        forall|k: int| 0 <= k < content.len() ==> content[k] != '$' && content[k] != '}',
        forall|k: int| 0 <= k < after.len() ==> after[k] != '$',
    ensures
        expanded(before + "${"@ + content + "}"@ + after, lf, cf, ce, le) == match resolve_token(content, lf, cf, ce, le) {
            Some(v) => before + v + after,
            None => before + "${"@ + content + "}"@ + after,
        },
{
    reveal_strlit("${");
    reveal_strlit("}");
    let s = before + "${"@ + content + "}"@ + after;
    let b = before.len() as int;
    assert(s[b] == '$' && s[b + 1] == '{');
    assert(forall|j: int| 0 <= j < b ==> s[j] == before[j]);
    lemma_open_at(s, 0, b);
    assert forall|k: int| b + 2 <= k < s.len() implies s[k] != '$' by {
        if k < b + 2 + content.len() {
            assert(s[k] == content[k - b - 2]);
        } else if k > b + 2 + content.len() {
            assert(s[k] == after[k - b - 3 - content.len()]);
        }
    }
    lemma_no_open(s, b + 2);
    let part = s.subrange(b + 2, s.len() as int);
    assert(part =~= content + "}"@ + after);
    assert(forall|j: int| 0 <= j < content.len() ==> part[j] == content[j]);
    lemma_first_index_at(part, '}', 0, content.len() as int);
    assert(part.take(content.len() as int) =~= content);
    assert(part.skip(content.len() + 1int) =~= after);
    assert(s.take(b) =~= before);
    match resolve_token(content, lf, cf, ce, le) {
        Some(v) => {
            assert(before + (v + after) =~= before + v + after);
        },
        None => {
            assert(before + ("${"@ + content + "}"@ + after) =~= before + "${"@ + content + "}"@ + after);
        },
    }
}

} // verus!
