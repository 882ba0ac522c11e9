use vstd::prelude::*;

use crate::devcontainer::config::{chain_position, common_of, workspace_folder_of, CommonConfig, DevcontainerConfig, WaitFor};
use crate::devcontainer::jsonc::model::{JsonValue, Value};
use crate::features::manifest::Feature;
use crate::devcontainer::docker_args::env_flags;
use crate::devcontainer::jsonc::access::StringMap;
use crate::devcontainer::shell::{field, parse_shell_from_passwd, trim, trim_chars};
use crate::devcontainer::variables::{expand_variables, expanded};
use crate::docker::containers::{lemma_line_end, line_end};
use crate::lifecycle::{ascending, lemma_adjacent_ascending, lemma_ascending_unique};
use crate::text::{chars_of, lines_view, push_str, string_of, sub_chars, text_lt};

verus! {

/// `line` without the carriage return that ends it, if any.
pub open spec fn without_cr(line: Seq<char>) -> Seq<char> {
    if line.len() > 0 && line.last() == '\r' {
        line.drop_last()
    } else {
        line
    }
}

/// The lines of `s[i..]` as `str::lines` gives them: split at line feeds, a carriage
/// return before a line feed left out, no empty line after a last line feed.
pub open spec fn text_lines(s: Seq<char>, i: int) -> Seq<Seq<char>>
    decreases s.len() - i,
{
    if i < 0 || i >= s.len() {
        Seq::empty()
    } else {
        let e = line_end(s, i);
        proof {
            lemma_line_end(s, i);
        }
        let rest = if e < s.len() {
            text_lines(s, e + 1)
        } else {
            Seq::empty()
        };
        seq![without_cr(s.subrange(i, e))] + rest
    }
}

/// Index of the first `=` of `s`, if any.
pub open spec fn first_equals(s: Seq<char>, i: int) -> Option<int>
    decreases s.len() - i,
{
    if i < 0 || i >= s.len() {
        None
    } else if s[i] == '=' {
        Some(i)
    } else {
        first_equals(s, i + 1)
    }
}

/// The name and value of a line `NAME=value` (the whole line and nothing where it has
/// no `=`).
pub open spec fn env_pair(line: Seq<char>) -> (Seq<char>, Seq<char>) {
    match first_equals(line, 0) {
        Some(k) => (line.take(k), line.skip(k + 1)),
        None => (line, Seq::empty()),
    }
}

/// The environment that `printenv` printed, one pair per line.
pub open spec fn printed_env(out: Seq<char>) -> Seq<(Seq<char>, Seq<char>)> {
    text_lines(out, 0).map_values(|l: Seq<char>| env_pair(l))
}

pub open spec fn pairs_view(v: Seq<(String, String)>) -> Seq<(Seq<char>, Seq<char>)> {
    v.map_values(|p: (String, String)| (p.0@, p.1@))
}

proof fn lemma_first_equals(s: Seq<char>, i: int)
    requires
        0 <= i,
    ensures
        first_equals(s, i) matches Some(k) ==> i <= k < s.len() && s[k] == '=',
    decreases s.len() - i,
{
    if i < s.len() && s[i] != '=' {
        lemma_first_equals(s, i + 1);
    }
}

fn env_pair_exec(line: &Vec<char>) -> (r: (String, String))
    ensures
        (r.0@, r.1@) == env_pair(line@),
{
    let mut k: usize = 0;
    while k < line.len() && line[k] != '='
        invariant
            k <= line.len(),
            first_equals(line@, 0) == first_equals(line@, k as int),
        decreases line.len() - k,
    {
        k += 1;
    }
    if k < line.len() {
        let name = sub_chars(line, 0, k);
        let value = sub_chars(line, k + 1, line.len());
        assert(line@.take(k as int) =~= name@);
        assert(line@.skip(k + 1) =~= value@);
        (string_of(name.as_slice()), string_of(value.as_slice()))
    } else {
        (string_of(line.as_slice()), String::new())
    }
}

/// The environment that the output `out` of `printenv` shows.
pub fn parse_printenv(out: &str) -> (r: Vec<(String, String)>)
    ensures
        pairs_view(r@) == printed_env(out@),
{
    let s = chars_of(out);
    let mut r: Vec<(String, String)> = Vec::new();
    let mut i: usize = 0;
    while i < s.len()
        invariant
            i <= s.len(),
            s@ == out@,
            pairs_view(r@) + text_lines(s@, i as int).map_values(|l: Seq<char>| env_pair(l)) == printed_env(out@),
        decreases s.len() - i,
    {
        let mut e = i;
        while e < s.len() && s[e] != '\n'
            invariant
                i <= e <= s.len(),
                line_end(s@, i as int) == line_end(s@, e as int),
            decreases s.len() - e,
        {
            e += 1;
        }
        proof { lemma_line_end(s@, i as int); }
        let mut line = sub_chars(&s, i, e);
        if line.len() > 0 && line[line.len() - 1] == '\r' {
            line.pop();
        }
        assert(line@ =~= without_cr(s@.subrange(i as int, e as int)));
        let pair = env_pair_exec(&line);
        let ghost before = pairs_view(r@);
        r.push(pair);
        let ghost rest = if e < s.len() {
            text_lines(s@, e + 1)
        } else {
            Seq::empty()
        };
        proof {
            assert(pairs_view(r@) =~= before.push(env_pair(line@)));
            assert(line_end(s@, i as int) == e);
            if e < s.len() {
            } else {
                assert(text_lines(s@, e + 1) =~= Seq::<Seq<char>>::empty());
            }
            assert(text_lines(s@, i as int) == seq![line@] + rest);
            assert((seq![line@] + rest).map_values(|l: Seq<char>| env_pair(l)) =~= seq![env_pair(line@)] + rest.map_values(
                |l: Seq<char>| env_pair(l),
            ));
            assert(before + (seq![env_pair(line@)] + rest.map_values(|l: Seq<char>| env_pair(l))) =~= before.push(
                env_pair(line@),
            ) + rest.map_values(|l: Seq<char>| env_pair(l)));
        }
        if e < s.len() {
            i = e + 1;
        } else {
            i = e;
            assert(text_lines(s@, e as int) =~= Seq::<Seq<char>>::empty());
            assert(rest =~= Seq::<Seq<char>>::empty());
        }
    }
    assert(text_lines(s@, i as int).map_values(|l: Seq<char>| env_pair(l)) =~= Seq::<(Seq<char>, Seq<char>)>::empty());
    assert(pairs_view(r@) + Seq::<(Seq<char>, Seq<char>)>::empty() =~= pairs_view(r@));
    r
}

pub open spec fn opt_text_of(o: Option<&str>) -> Option<Seq<char>> {
    match o {
        Some(s) => Some(s@),
        None => None,
    }
}

/// The user a shell session runs as: the configured remote user, its variables expanded
/// with the container's environment `container_env` (as printed), else `container_user`,
/// the one the container or its image names.
pub open spec fn session_remote_user_of(
    config: DevcontainerConfig,
    container_env: Seq<(String, String)>,
    container_user: Option<Seq<char>>,
    cwd: Seq<char>,
    local_env: Seq<(String, String)>,
) -> Option<Seq<char>> {
    match common_of(config).remote_user {
        Some(u) => Some(expanded(u@, cwd, workspace_folder_of(config, cwd, local_env), container_env, local_env)),
        None => container_user,
    }
}

/// The user a shell session runs as (see [`session_remote_user_of`]).
pub fn session_remote_user(
    config: &DevcontainerConfig,
    container_env: &[(String, String)],
    container_user: Option<&str>,
    cwd: &str,
    local_env: &[(String, String)],
) -> (r: Option<String>)
    ensures
        match r {
            Some(u) => session_remote_user_of(*config, container_env@, opt_text_of(container_user), cwd@, local_env@) == Some(u@),
            None => session_remote_user_of(*config, container_env@, opt_text_of(container_user), cwd@, local_env@) is None,
        },
{
    match &config.common().remote_user {
        Some(u) => {
            let workdir = config.workspace_folder(cwd, local_env);
            Some(expand_variables(u.as_str(), cwd, workdir.as_str(), container_env, local_env))
        },
        None => match container_user {
            Some(u) => Some(u.to_owned()),
            None => None,
        },
    }
}

/// The login shell of a `passwd` line: its seventh field, where that is not empty.
pub open spec fn passwd_shell(line: Seq<char>) -> Option<Seq<char>> {
    match field(trim(line), 6) {
        Some(f) => if f.len() == 0 {
            None
        } else {
            Some(f)
        },
        None => None,
    }
}

/// The shell of a session: the container's `SHELL` where it is set, else the login
/// shell of the remote user's `passwd` line, else `/bin/sh`.
pub open spec fn session_shell_of(shell_env: Option<Seq<char>>, passwd: Option<Seq<char>>) -> Seq<char> {
    if shell_env matches Some(s) && trim(s).len() > 0 {
        trim(shell_env->0)
    } else {
        match passwd {
            Some(p) => match passwd_shell(p) {
                Some(sh) => sh,
                None => "/bin/sh"@,
            },
            None => "/bin/sh"@,
        }
    }
}

/// The shell of a session, given what `printenv SHELL` printed and the remote user's
/// `passwd` line, where they could be had.
pub fn session_shell(shell_env: Option<&str>, passwd: Option<&str>) -> (r: String)
    ensures
        r@ == session_shell_of(opt_text_of(shell_env), opt_text_of(passwd)),
{
    if let Some(s) = shell_env {
        let t = trim_chars(&chars_of(s));
        if t.len() > 0 {
            return string_of(t.as_slice());
        }
    }
    match passwd {
        Some(p) => match parse_shell_from_passwd(p) {
            Some(x) => x,
            None => "/bin/sh".to_owned(),
        },
        None => "/bin/sh".to_owned(),
    }
}

/// The remote environment of `env[..n]` with its values expanded: each variable with a
/// value, the last one given for a name winning.
pub open spec fn remote_env_map(
    env: Seq<(String, Option<String>)>,
    n: int,
    cwd: Seq<char>,
    workdir: Seq<char>,
    ce: Seq<(String, String)>,
    le: Seq<(String, String)>,
) -> Map<Seq<char>, Seq<char>>
    decreases n,
{
    if n <= 0 || n > env.len() {
        Map::empty()
    } else {
        let m = remote_env_map(env, n - 1, cwd, workdir, ce, le);
        match env[n - 1].1 {
            Some(v) => m.insert(env[n - 1].0@, expanded(v@, cwd, workdir, ce, le)),
            None => m,
        }
    }
}

/// The names of `l`.
pub open spec fn names_of(l: Seq<(Seq<char>, Seq<char>)>) -> Seq<Seq<char>> {
    l.map_values(|p: (Seq<char>, Seq<char>)| p.0)
}

/// The entries of `m` in the order of their names (the order of `str`).
pub open spec fn ascending_entries(m: Map<Seq<char>, Seq<char>>) -> Seq<(Seq<char>, Seq<char>)> {
    choose|l: Seq<(Seq<char>, Seq<char>)>| entries_in_order(l, m)
}

pub open spec fn entries_in_order(l: Seq<(Seq<char>, Seq<char>)>, m: Map<Seq<char>, Seq<char>>) -> bool {
    &&& ascending(names_of(l))
    &&& forall|k: Seq<char>| #[trigger] names_of(l).contains(k) == m.contains_key(k)
    &&& forall|i: int| 0 <= i < l.len() ==> m[#[trigger] l[i].0] == l[i].1
}

proof fn lemma_entries_unique(a: Seq<(Seq<char>, Seq<char>)>, b: Seq<(Seq<char>, Seq<char>)>, m: Map<Seq<char>, Seq<char>>)
    requires
        entries_in_order(a, m),
        entries_in_order(b, m),
    ensures
        a == b,
{
    let ka = names_of(a);
    let kb = names_of(b);
    assert forall|x: Seq<char>| #[trigger] ka.contains(x) == kb.contains(x) by {
        assert(ka.contains(x) == m.contains_key(x));
        assert(kb.contains(x) == m.contains_key(x));
    }
    lemma_ascending_unique(ka, kb);
    assert forall|i: int| 0 <= i < a.len() implies a[i] == b[i] by {
        assert(ka[i] == a[i].0);
        assert(kb[i] == b[i].0);
        assert(m[a[i].0] == a[i].1);
        assert(m[b[i].0] == b[i].1);
    }
    assert(a.len() == ka.len() && b.len() == kb.len());
    assert(a =~= b);
}

/// The arguments of `docker exec` that open the shell `shell` in the container `id` as
/// `remote_user`, in the workspace folder, with the remote environment (values
/// expanded with the container's environment `ce`) in the order of the names.
pub open spec fn session_args_of(
    config: DevcontainerConfig,
    id: Seq<char>,
    remote_user: Option<Seq<char>>,
    ce: Seq<(String, String)>,
    shell: Seq<char>,
    cwd: Seq<char>,
    le: Seq<(String, String)>,
) -> Seq<Seq<char>> {
    let workdir = workspace_folder_of(config, cwd, le);
    let env: Seq<(Seq<char>, Seq<char>)> = match common_of(config).remote_env {
        Some(e) => ascending_entries(remote_env_map(e@, e.len() as int, cwd, workdir, ce, le)),
        None => Seq::empty(),
    };
    seq!["-it"@] + match remote_user {
        Some(u) => seq!["--user"@, u],
        None => Seq::empty(),
    } + seq!["--workdir"@, workdir] + env_flags(env) + seq![id, shell]
}

fn push_word(args: &mut Vec<String>, s: &str)
    ensures
        lines_view(final(args)@) == lines_view(old(args)@).push(s@),
{
    let ghost before = lines_view(args@);
    args.push(s.to_owned());
    assert(lines_view(args@) =~= before.push(s@));
}

/// The arguments of `docker exec` for a shell session (see [`session_args_of`]).
pub fn exec_session_args(
    config: &DevcontainerConfig,
    id: &str,
    remote_user: Option<&str>,
    container_env: &[(String, String)],
    shell: &str,
    cwd: &str,
    local_env: &[(String, String)],
) -> (r: Vec<String>)
    ensures
        lines_view(r@) == session_args_of(*config, id@, opt_text_of(remote_user), container_env@, shell@, cwd@, local_env@),
{
    let workdir = config.workspace_folder(cwd, local_env);
    let mut args: Vec<String> = Vec::new();
    push_word(&mut args, "-it");
    if let Some(u) = remote_user {
        push_word(&mut args, "--user");
        push_word(&mut args, u);
    }
    push_word(&mut args, "--workdir");
    push_word(&mut args, workdir.as_str());
    let ghost head = lines_view(args@);
    let mut names = StringMap::new();
    let ghost mut m: Map<Seq<char>, Seq<char>> = Map::empty();
    match &config.common().remote_env {
        Some(env) => {
            let mut i: usize = 0;
            while i < env.len()
                invariant
                    i <= env.len(),
                    names.wf(),
                    names@ == remote_env_map(env@, i as int, cwd@, workdir@, container_env@, local_env@),
                decreases env.len() - i,
            {
                match &env[i].1 {
                    Some(v) => {
                        let x = expand_variables(v.as_str(), cwd, workdir.as_str(), container_env, local_env);
                        names.insert(env[i].0.clone(), x);
                    },
                    None => {},
                }
                i += 1;
            }
            proof { m = remote_env_map(env@, env.len() as int, cwd@, workdir@, container_env@, local_env@); }
        },
        None => {
            assert(names@ =~= Map::<Seq<char>, Seq<char>>::empty());
        },
    }
    proof { names.lemma_listing(); }
    let ghost l = names.listing();
    let entries = names.entries();
    let mut k: usize = 0;
    while k < entries.len()
        invariant
            k <= entries.len(),
            entries.len() == l.len(),
            l == names.listing(),
            forall|j: int| 0 <= j < entries.len() ==> (#[trigger] entries@[j].0@, entries@[j].1@) == l[j],
            lines_view(args@) == head + env_flags(l.take(k as int)),
        decreases entries.len() - k,
    {
        push_word(&mut args, "--env");
        let mut kv: Vec<char> = Vec::new();
        push_str(&mut kv, entries[k].0.as_str());
        push_str(&mut kv, "=");
        push_str(&mut kv, entries[k].1.as_str());
        let kvs = string_of(kv.as_slice());
        push_word(&mut args, kvs.as_str());
        proof {
            assert(l.take(k + 1).drop_last() =~= l.take(k as int));
            assert(l.take(k + 1).last() == (entries@[k as int].0@, entries@[k as int].1@));
        }
        assert(lines_view(args@) =~= head + env_flags(l.take(k + 1)));
        k += 1;
    }
    assert(l.take(entries.len() as int) =~= l);
    proof {
        let ks = names_of(l);
        assert forall|j: int| 0 <= j < ks.len() - 1 implies text_lt(#[trigger] ks[j], ks[j + 1]) by {}
        lemma_adjacent_ascending(ks);
        assert forall|x: Seq<char>| #[trigger] ks.contains(x) == names@.contains_key(x) by {
            if ks.contains(x) {
                let j = choose|j: int| 0 <= j < ks.len() && ks[j] == x;
                assert(names@.contains_key(l[j].0));
            }
            if names@.contains_key(x) {
                let j = choose|j: int| 0 <= j < l.len() && #[trigger] l[j].0 == x;
                assert(ks[j] == x);
            }
        }
        assert(entries_in_order(l, names@));
        let chosen = ascending_entries(names@);
        lemma_entries_unique(l, chosen, names@);
    }
    push_word(&mut args, id);
    push_word(&mut args, shell);
    proof {
        let env_part: Seq<(Seq<char>, Seq<char>)> = match common_of(*config).remote_env {
            Some(e) => ascending_entries(remote_env_map(e@, e.len() as int, cwd@, workdir@, container_env@, local_env@)),
            None => Seq::empty(),
        };
        if common_of(*config).remote_env is None {
            assert(names@ =~= Map::<Seq<char>, Seq<char>>::empty());
            assert(l.len() == 0) by {
                if l.len() > 0 {
                    assert(names@.contains_key(l[0].0));
                }
            }
            assert(l =~= env_part);
        }
        assert(l == env_part);
    }
    args
}

/// When a lifecycle command runs: each time, or once per creation or start of the
/// container (the epoch recorded in a marker file).
#[derive(Debug, PartialEq, Eq, Clone, Copy, Structural)]
pub enum Marker {
    Always,
    OnceCreated,
    OnceStarted,
}

/// How the shell found its container.
#[derive(Debug, PartialEq, Eq, Clone, Copy, Structural)]
pub enum Phase {
    /// Running already: only attaching is left.
    Attach,
    /// Stopped, then started again.
    Restart,
    /// Made anew.
    Create,
}

/// One lifecycle command to run in the container.
pub struct LifecycleStep {
    pub name: String,
    pub command: Value,
    pub marker: Marker,
    pub wait: bool,
}

/// The plain content of a [`LifecycleStep`].
pub struct StepModel {
    pub name: Seq<char>,
    pub command: JsonValue,
    pub marker: Marker,
    pub wait: bool,
}

pub open spec fn step_view(s: LifecycleStep) -> StepModel {
    StepModel { name: s.name@, command: s.command@, marker: s.marker, wait: s.wait }
}

/// The lifecycle stages in order, by their position in `waitFor`'s chain.
pub open spec fn stage_of(k: int) -> WaitFor {
    if k == 0 {
        WaitFor::OnCreateCommand
    } else if k == 1 {
        WaitFor::UpdateContentCommand
    } else if k == 2 {
        WaitFor::PostCreateCommand
    } else if k == 3 {
        WaitFor::PostStartCommand
    } else {
        WaitFor::PostAttachCommand
    }
}

pub open spec fn stage_name(k: int) -> Seq<char> {
    if k == 0 {
        "onCreateCommand"@
    } else if k == 1 {
        "updateContentCommand"@
    } else if k == 2 {
        "postCreateCommand"@
    } else if k == 3 {
        "postStartCommand"@
    } else {
        "postAttachCommand"@
    }
}

pub open spec fn stage_marker(k: int) -> Marker {
    if k <= 2 {
        Marker::OnceCreated
    } else if k == 3 {
        Marker::OnceStarted
    } else {
        Marker::Always
    }
}

/// The configuration's command of stage `k`.
pub open spec fn config_command(c: CommonConfig, k: int) -> Option<Value> {
    if k == 0 {
        c.on_create_command
    } else if k == 1 {
        c.update_content_command
    } else if k == 2 {
        c.post_create_command
    } else if k == 3 {
        c.post_start_command
    } else {
        c.post_attach_command
    }
}

/// A feature's command of stage `k`.
pub open spec fn feature_command(f: Feature, k: int) -> Option<Value> {
    if k == 0 {
        f.on_create_command
    } else if k == 1 {
        f.update_content_command
    } else if k == 2 {
        f.post_create_command
    } else if k == 3 {
        f.post_start_command
    } else {
        f.post_attach_command
    }
}

/// Whether the shell waits for the commands of stage `k`: where `waitFor` names that
/// stage or a later one, or is not set.
pub open spec fn stage_waits(c: CommonConfig, k: int) -> bool {
    match c.wait_for {
        Some(w) => chain_position(stage_of(k)) <= chain_position(w),
        None => true,
    }
}

pub open spec fn step_for(c: CommonConfig, k: int, command: Value) -> StepModel {
    StepModel { name: stage_name(k), command: command@, marker: stage_marker(k), wait: stage_waits(c, k) }
}

/// The steps of the features' commands of stage `k`, in install order.
pub open spec fn feature_steps(c: CommonConfig, features: Seq<Feature>, k: int) -> Seq<StepModel>
    decreases features.len(),
{
    if features.len() == 0 {
        Seq::empty()
    } else {
        let rest = feature_steps(c, features.drop_last(), k);
        match feature_command(features.last(), k) {
            Some(v) => rest.push(step_for(c, k, v)),
            None => rest,
        }
    }
}

/// The steps of stage `k`: the configuration's command, then, where the container was
/// made anew, the features' commands.
pub open spec fn stage_steps(c: CommonConfig, features: Seq<Feature>, k: int, phase: Phase) -> Seq<StepModel> {
    let own = match config_command(c, k) {
        Some(v) => seq![step_for(c, k, v)],
        None => Seq::empty(),
    };
    if phase == Phase::Create {
        own + feature_steps(c, features, k)
    } else {
        own
    }
}

/// The lifecycle commands to run, in order: for a container made anew every stage from
/// `onCreateCommand` to `postAttachCommand`, for a restarted one `postStartCommand` and
/// `postAttachCommand`, for a running one `postAttachCommand`.
pub open spec fn lifecycle_plan_of(c: CommonConfig, features: Seq<Feature>, phase: Phase) -> Seq<StepModel> {
    let first = match phase {
        Phase::Create => 0int,
        Phase::Restart => 3int,
        Phase::Attach => 4int,
    };
    stages_from(c, features, phase, first)
}

pub open spec fn stages_from(c: CommonConfig, features: Seq<Feature>, phase: Phase, k: int) -> Seq<StepModel>
    decreases 5 - k,
{
    if k >= 5 || k < 0 {
        Seq::empty()
    } else {
        stage_steps(c, features, k, phase) + stages_from(c, features, phase, k + 1)
    }
}

pub open spec fn steps_view(v: Seq<LifecycleStep>) -> Seq<StepModel> {
    v.map_values(|s: LifecycleStep| step_view(s))
}

fn stage_wait_for(k: u8) -> (r: WaitFor)
    requires
        k < 5,
    ensures
        r == stage_of(k as int),
{
    if k == 0 {
        WaitFor::OnCreateCommand
    } else if k == 1 {
        WaitFor::UpdateContentCommand
    } else if k == 2 {
        WaitFor::PostCreateCommand
    } else if k == 3 {
        WaitFor::PostStartCommand
    } else {
        WaitFor::PostAttachCommand
    }
}

fn make_step(c: &CommonConfig, k: u8, command: &Value) -> (r: LifecycleStep)
    requires
        k < 5,
    ensures
        step_view(r) == step_for(*c, k as int, *command),
{
    let name = if k == 0 {
        "onCreateCommand"
    } else if k == 1 {
        "updateContentCommand"
    } else if k == 2 {
        "postCreateCommand"
    } else if k == 3 {
        "postStartCommand"
    } else {
        "postAttachCommand"
    };
    let marker = if k <= 2 {
        Marker::OnceCreated
    } else if k == 3 {
        Marker::OnceStarted
    } else {
        Marker::Always
    };
    let stage = stage_wait_for(k);
    let wait = match &c.wait_for {
        Some(w) => w.waits_for(&stage),
        None => true,
    };
    LifecycleStep { name: name.to_owned(), command: command.deep_clone(), marker, wait }
}

fn config_command_ref(c: &CommonConfig, k: u8) -> (r: &Option<Value>)
    requires
        k < 5,
    ensures
        *r == config_command(*c, k as int),
{
    if k == 0 {
        &c.on_create_command
    } else if k == 1 {
        &c.update_content_command
    } else if k == 2 {
        &c.post_create_command
    } else if k == 3 {
        &c.post_start_command
    } else {
        &c.post_attach_command
    }
}

fn feature_command_ref(f: &Feature, k: u8) -> (r: &Option<Value>)
    requires
        k < 5,
    ensures
        *r == feature_command(*f, k as int),
{
    if k == 0 {
        &f.on_create_command
    } else if k == 1 {
        &f.update_content_command
    } else if k == 2 {
        &f.post_create_command
    } else if k == 3 {
        &f.post_start_command
    } else {
        &f.post_attach_command
    }
}

/// The lifecycle commands to run in the container (see [`lifecycle_plan_of`]).
pub fn lifecycle_plan(common: &CommonConfig, features: &[Feature], phase: Phase) -> (r: Vec<LifecycleStep>)
    ensures
        steps_view(r@) == lifecycle_plan_of(*common, features@, phase),
{
    let mut out: Vec<LifecycleStep> = Vec::new();
    let first: u8 = match phase {
        Phase::Create => 0,
        Phase::Restart => 3,
        Phase::Attach => 4,
    };
    let mut k: u8 = first;
    while k < 5
        invariant
            first <= k <= 5,
            lifecycle_plan_of(*common, features@, phase) == steps_view(out@) + stages_from(*common, features@, phase, k as int),
        decreases 5 - k,
    {
        let ghost before = steps_view(out@);
        match config_command_ref(common, k) {
            Some(v) => {
                out.push(make_step(common, k, v));
            },
            None => {},
        }
        let ghost own = steps_view(out@);
        proof {
            assert(own =~= before + match config_command(*common, k as int) {
                Some(v) => seq![step_for(*common, k as int, v)],
                None => Seq::<StepModel>::empty(),
            });
        }
        if phase == Phase::Create {
            let mut i: usize = 0;
            while i < features.len()
                invariant
                    i <= features.len(),
                    k < 5,
                    steps_view(out@) == own + feature_steps(*common, features@.take(i as int), k as int),
                decreases features.len() - i,
            {
                proof {
                    assert(features@.take(i + 1).drop_last() =~= features@.take(i as int));
                    assert(features@.take(i + 1).last() == features@[i as int]);
                }
                match feature_command_ref(&features[i], k) {
                    Some(v) => {
                        let ghost b = steps_view(out@);
                        out.push(make_step(common, k, v));
                        assert(steps_view(out@) =~= b.push(step_for(*common, k as int, *v)));
                    },
                    None => {},
                }
                i += 1;
            }
            assert(features@.take(features.len() as int) =~= features@);
        }
        proof {
            assert(steps_view(out@) =~= before + stage_steps(*common, features@, k as int, phase));
        }
        k += 1;
    }
    assert(steps_view(out@) + Seq::<StepModel>::empty() =~= steps_view(out@));
    out
}

} // verus!
