use vstd::prelude::*;

use crate::devcontainer::config::texts;
use crate::devcontainer::jsonc::access::{last_key_index, lemma_last_key_index_pub, StringMap};
use crate::devcontainer::jsonc::model::{lemma_array_view, lemma_object_view, JsonValue, Value};
use crate::docker::inspect::{collect_strings, strings_in, array_strings};
use crate::devcontainer::variables::{expand_variables, expanded};
use crate::text::{lemma_text_lt_total, same_text, text_lt};

verus! {

/// A lifecycle command of a configuration: a shell command line, a program and its
/// arguments, or named commands that run side by side.
#[derive(Debug, PartialEq)]
pub enum LifecycleCmd {
    Shell(String),
    Exec(Vec<String>),
    Parallel(Vec<LifecycleCmd>),
}

/// The mathematical content of a [`LifecycleCmd`].
pub enum CommandModel {
    Shell(Seq<char>),
    Exec(Seq<Seq<char>>),
    Parallel(Seq<CommandModel>),
}

impl View for LifecycleCmd {
    type V = CommandModel;

    open spec fn view(&self) -> CommandModel
        decreases self,
    {
        match self {
            LifecycleCmd::Shell(s) => CommandModel::Shell(s@),
            LifecycleCmd::Exec(args) => CommandModel::Exec(texts(args@)),
            LifecycleCmd::Parallel(cmds) => CommandModel::Parallel(
                Seq::new(
                    cmds.len() as nat,
                    |i: int|
                        if 0 <= i < cmds.len() {
                            cmds@[i].view()
                        } else {
                            CommandModel::Shell(Seq::empty())
                        },
                ),
            ),
        }
    }
}

/// Each text of `s` comes before every later one in the order of `str`.
pub open spec fn ascending(s: Seq<Seq<char>>) -> bool {
    forall|i: int, j: int| 0 <= i < j < s.len() ==> text_lt(#[trigger] s[i], #[trigger] s[j])
}

/// The distinct names among `keys`, in the order of `str`.
pub open spec fn key_listing(keys: Seq<Seq<char>>) -> Seq<Seq<char>> {
    choose|ks: Seq<Seq<char>>| ascending(ks) && forall|x: Seq<char>| #[trigger] ks.contains(x) == keys.contains(x)
}

/// Whether `v` can be a lifecycle command: a string, an array or an object.
pub open spec fn is_command(v: JsonValue) -> bool {
    v is Str || v is Array || v is Object
}

/// The command that `v` describes, where it is one: a string is a shell command, an
/// array the program and arguments among its strings, and an object the commands of its
/// members, by name in the order of `str`, each name with its last value.
pub open spec fn command_of(v: JsonValue) -> CommandModel
    decreases v, 0int,
{
    match v {
        JsonValue::Str(s) => CommandModel::Shell(s),
        JsonValue::Array(items) => CommandModel::Exec(strings_in(items)),
        JsonValue::Object(keys, vals) => CommandModel::Parallel(commands_in(keys, vals, key_listing(keys))),
        _ => CommandModel::Shell(Seq::empty()),
    }
}

/// The commands of the members named `names`, in that order, each name with its last
/// value, those that are no command left out.
pub open spec fn commands_in(keys: Seq<Seq<char>>, vals: Seq<JsonValue>, names: Seq<Seq<char>>) -> Seq<CommandModel>
    decreases vals, names.len(),
{
    if names.len() == 0 {
        Seq::empty()
    } else {
        let rest = commands_in(keys, vals, names.drop_last());
        match last_key_index(keys, names.last(), keys.len() as int) {
            Some(j) => if 0 <= j < vals.len() && is_command(vals[j]) {
                rest.push(command_of(vals[j]))
            } else {
                rest
            },
            None => rest,
        }
    }
}

/// `text_lt` is transitive.
pub proof fn lemma_text_lt_transitive(a: Seq<char>, b: Seq<char>, c: Seq<char>)
    requires
        text_lt(a, b),
        text_lt(b, c),
    ensures
        text_lt(a, c),
    decreases a.len(),
{
    if a.len() > 0 {
        if a[0] == b[0] && b[0] == c[0] {
            lemma_text_lt_transitive(a.drop_first(), b.drop_first(), c.drop_first());
        }
    }
}

/// Two ascending sequences with the same texts are the same.
pub proof fn lemma_ascending_unique(s: Seq<Seq<char>>, t: Seq<Seq<char>>)
    requires
        ascending(s),
        ascending(t),
        forall|x: Seq<char>| #[trigger] s.contains(x) == t.contains(x),
    ensures
        s == t,
    decreases s.len(),
{
    if s.len() == 0 {
        if t.len() > 0 {
            assert(t.contains(t[0]));
            assert(s.contains(t[0]));
        }
        assert(s =~= t);
    } else {
        assert(s.contains(s[0]));
        assert(t.contains(s[0]));
        assert(t.len() > 0);
        assert(t.contains(t[0]));
        assert(s.contains(t[0]));
        if s[0] != t[0] {
            let j = choose|j: int| 0 <= j < s.len() && s[j] == t[0];
            let k = choose|k: int| 0 <= k < t.len() && t[k] == s[0];
            assert(j > 0);
            assert(k > 0);
            assert(text_lt(s[0], s[j]));
            assert(text_lt(t[0], t[k]));
            lemma_text_lt_total(s[0], t[0]);
        }
        let s2 = s.drop_first();
        let t2 = t.drop_first();
        assert forall|x: Seq<char>| #[trigger] s2.contains(x) == t2.contains(x) by {
            if s2.contains(x) {
                let j = choose|j: int| 0 <= j < s2.len() && s2[j] == x;
                assert(s[j + 1] == x);
                assert(text_lt(s[0], s[j + 1]));
                lemma_text_lt_total(s[0], x);
                assert(s.contains(x));
                assert(t.contains(x));
                let k = choose|k: int| 0 <= k < t.len() && t[k] == x;
                assert(k != 0);
                assert(t2[k - 1] == x);
            }
            if t2.contains(x) {
                let j = choose|j: int| 0 <= j < t2.len() && t2[j] == x;
                assert(t[j + 1] == x);
                assert(text_lt(t[0], t[j + 1]));
                lemma_text_lt_total(t[0], x);
                assert(t.contains(x));
                assert(s.contains(x));
                let k = choose|k: int| 0 <= k < s.len() && s[k] == x;
                assert(k != 0);
                assert(s2[k - 1] == x);
            }
        }
        assert forall|i: int, j: int| 0 <= i < j < s2.len() implies text_lt(#[trigger] s2[i], #[trigger] s2[j]) by {
            assert(text_lt(s[i + 1], s[j + 1]));
        }
        assert forall|i: int, j: int| 0 <= i < j < t2.len() implies text_lt(#[trigger] t2[i], #[trigger] t2[j]) by {
            assert(text_lt(t[i + 1], t[j + 1]));
        }
        lemma_ascending_unique(s2, t2);
        assert(s =~= seq![s[0]] + s2);
        assert(t =~= seq![t[0]] + t2);
    }
}

/// A sequence whose neighbours are in order is ascending.
pub proof fn lemma_adjacent_ascending(s: Seq<Seq<char>>)
    requires
        forall|i: int| 0 <= i < s.len() - 1 ==> text_lt(#[trigger] s[i], s[i + 1]),
    ensures
        ascending(s),
{
    assert forall|i: int, j: int| 0 <= i < j < s.len() implies text_lt(#[trigger] s[i], #[trigger] s[j]) by {
        lemma_adjacent_span(s, i, j);
    }
}

proof fn lemma_adjacent_span(s: Seq<Seq<char>>, i: int, j: int)
    requires
        forall|k: int| 0 <= k < s.len() - 1 ==> text_lt(#[trigger] s[k], s[k + 1]),
        0 <= i < j < s.len(),
    ensures
        text_lt(s[i], s[j]),
    decreases j - i,
{
    if j > i + 1 {
        lemma_adjacent_span(s, i, j - 1);
        lemma_text_lt_transitive(s[i], s[j - 1], s[j]);
    }
}

/// The distinct names among `keys`, in the order of `str`.
fn sorted_names(members: &[(String, Value)]) -> (r: Vec<String>)
    ensures
        texts(r@) == key_listing(Seq::new(members.len() as nat, |i: int| members@[i].0@)),
{
    let ghost keys = Seq::new(members.len() as nat, |i: int| members@[i].0@);
    let mut names = StringMap::new();
    let mut i: usize = 0;
    while i < members.len()
        invariant
            i <= members.len(),
            keys == Seq::new(members.len() as nat, |i: int| members@[i].0@),
            names.wf(),
            forall|x: Seq<char>| #[trigger] names@.contains_key(x) == keys.subrange(0, i as int).contains(x),
        decreases members.len() - i,
    {
        let key = members[i].0.clone();
        assert(key@ == keys[i as int]);
        names.insert(key, String::new());
        proof {
            assert(keys.subrange(0, i + 1)[i as int] == keys[i as int]);
            assert forall|x: Seq<char>| #[trigger] names@.contains_key(x) == keys.subrange(0, i + 1).contains(x) by {
                if keys.subrange(0, i as int).contains(x) {
                    let j = choose|j: int| 0 <= j < i && #[trigger] keys.subrange(0, i as int)[j] == x;
                    assert(keys.subrange(0, i + 1)[j] == x);
                }
                if keys.subrange(0, i + 1).contains(x) {
                    let j = choose|j: int| 0 <= j < i + 1 && #[trigger] keys.subrange(0, i + 1)[j] == x;
                    if j < i {
                        assert(keys.subrange(0, i as int)[j] == x);
                    }
                }
            }
        }
        i += 1;
    }
    assert(keys.subrange(0, members.len() as int) =~= keys);
    proof { names.lemma_listing(); }
    let entries = names.entries();
    let mut out: Vec<String> = Vec::new();
    let mut k: usize = 0;
    while k < entries.len()
        invariant
            k <= entries.len(),
            entries.len() == names.listing().len(),
            forall|j: int| 0 <= j < entries.len() ==> (#[trigger] entries@[j].0@, entries@[j].1@) == names.listing()[j],
            out.len() == k,
            forall|j: int| 0 <= j < k ==> #[trigger] out@[j]@ == names.listing()[j].0,
        decreases entries.len() - k,
    {
        out.push(entries[k].0.clone());
        k += 1;
    }
    proof {
        let l = names.listing();
        let ks = texts(out@);
        assert forall|j: int| 0 <= j < ks.len() implies ks[j] == #[trigger] l[j].0 by {}
        assert forall|j: int| 0 <= j < ks.len() - 1 implies text_lt(#[trigger] ks[j], ks[j + 1]) by {
            assert(text_lt(l[j].0, l[j + 1].0));
        }
        lemma_adjacent_ascending(ks);
        assert forall|x: Seq<char>| #[trigger] ks.contains(x) == keys.contains(x) by {
            if ks.contains(x) {
                let j = choose|j: int| 0 <= j < ks.len() && ks[j] == x;
                assert(names@.contains_key(l[j].0));
            }
            if keys.contains(x) {
                assert(names@.contains_key(x));
                let j = choose|j: int| 0 <= j < l.len() && #[trigger] l[j].0 == x;
                assert(ks[j] == x);
            }
        }
        let chosen = key_listing(keys);
        assert(ascending(chosen) && forall|x: Seq<char>| #[trigger] chosen.contains(x) == keys.contains(x));
        lemma_ascending_unique(ks, chosen);
    }
    out
}

impl LifecycleCmd {
    /// The command that `value` describes (see [`command_of`]); an error where it is
    /// neither a string, an array nor an object.
    pub fn try_from(value: &Value) -> (r: Result<LifecycleCmd, ()>)
        ensures
            match r {
                Ok(c) => is_command(value@) && c@ == command_of(value@),
                Err(_) => !is_command(value@),
            },
        decreases value,
    {
        match value {
            Value::String(s) => Ok(LifecycleCmd::Shell(s.clone())),
            Value::Array(_) => {
                let args = collect_strings(value);
                proof { lemma_array_view(*value); }
                Ok(LifecycleCmd::Exec(args))
            },
            Value::Object(members) => {
                proof { lemma_object_view(*value); }
                let ghost keys = Seq::new(members.len() as nat, |i: int| members@[i].0@);
                let ghost vals = Seq::new(members.len() as nat, |i: int| members@[i].1@);
                proof {
                    if let JsonValue::Object(k, x) = value@ {
                        assert(k =~= keys);
                        assert(x =~= vals);
                    }
                    assert(value@ == JsonValue::Object(keys, vals));
                }
                let names = sorted_names(members.as_slice());
                let ghost ns = texts(names@);
                let mut cmds: Vec<LifecycleCmd> = Vec::new();
                let mut i: usize = 0;
                while i < names.len()
                    invariant
                        i <= names.len(),
                        ns == texts(names@),
                        keys == Seq::new(members.len() as nat, |i: int| members@[i].0@),
                        vals == Seq::new(members.len() as nat, |i: int| members@[i].1@),
                        *value == Value::Object(*members),
                        Seq::new(cmds.len() as nat, |j: int| cmds@[j]@) == commands_in(keys, vals, ns.subrange(0, i as int)),
                    decreases names.len() - i,
                {
                    let name = names[i].as_str();
                    let mut n: usize = members.len();
                    while n > 0 && !same_text(members[n - 1].0.as_str(), name)
                        invariant
                            n <= members.len(),
                            keys == Seq::new(members.len() as nat, |i: int| members@[i].0@),
                            last_key_index(keys, name@, members.len() as int) == last_key_index(keys, name@, n as int),
                        decreases n,
                    {
                        n -= 1;
                    }
                    let ghost before = Seq::new(cmds.len() as nat, |j: int| cmds@[j]@);
                    proof {
                        assert(ns.subrange(0, i + 1).drop_last() =~= ns.subrange(0, i as int));
                        assert(ns.subrange(0, i + 1).last() == name@);
                    }
                    if n > 0 {
                        let j = n - 1;
                        proof {
                            assert(last_key_index(keys, name@, n as int) == Some(j as int));
                            assert(decreases_to!(*value => (*value)->Object_0));
                            assert(decreases_to!((*value)->Object_0 => (*value)->Object_0[j as int]));
                            assert(decreases_to!((*value)->Object_0[j as int] => (*value)->Object_0[j as int].1));
                        }
                        match LifecycleCmd::try_from(&members[j].1) {
                            Ok(c) => {
                                cmds.push(c);
                                assert(Seq::new(cmds.len() as nat, |k: int| cmds@[k]@) =~= before.push(
                                    command_of(vals[j as int]),
                                ));
                            },
                            Err(_) => {},
                        }
                    } else {
                        assert(last_key_index(keys, name@, 0) is None);
                    }
                    i += 1;
                }
                assert(ns.subrange(0, names.len() as int) =~= ns);
                let ghost cm = Seq::new(cmds.len() as nat, |j: int| cmds@[j]@);
                let r = LifecycleCmd::Parallel(cmds);
                proof {
                    if let CommandModel::Parallel(q) = r@ {
                        assert(q =~= cm);
                    }
                }
                assert(r@ == command_of(value@));
                Ok(r)
            },
            _ => Err(()),
        }
    }
}

/// `m` with the variables of each of its texts expanded for the workspace `lf`, the
/// container folder `cf`, the container environment `ce` and the local one `le`.
pub open spec fn expanded_command(
    m: CommandModel,
    lf: Seq<char>,
    cf: Seq<char>,
    ce: Seq<(String, String)>,
    le: Seq<(String, String)>,
) -> CommandModel
    decreases m,
{
    match m {
        CommandModel::Shell(s) => CommandModel::Shell(expanded(s, lf, cf, ce, le)),
        CommandModel::Exec(args) => CommandModel::Exec(args.map_values(|a: Seq<char>| expanded(a, lf, cf, ce, le))),
        CommandModel::Parallel(cs) => CommandModel::Parallel(
            Seq::new(
                cs.len(),
                |i: int|
                    if 0 <= i < cs.len() {
                        expanded_command(cs[i], lf, cf, ce, le)
                    } else {
                        CommandModel::Shell(Seq::empty())
                    },
            ),
        ),
    }
}

/// `cmd` with the variables of each of its texts expanded (see `expand_variables`).
pub fn expand_lifecycle_cmd(
    cmd: &LifecycleCmd,
    cwd: &str,
    container_workspace_folder: &str,
    container_env: &[(String, String)],
    local_env: &[(String, String)],
) -> (r: LifecycleCmd)
    ensures
        r@ == expanded_command(cmd@, cwd@, container_workspace_folder@, container_env@, local_env@),
    decreases cmd,
{
    match cmd {
        LifecycleCmd::Shell(s) => {
            let e = expand_variables(s.as_str(), cwd, container_workspace_folder, container_env, local_env);
            let r = LifecycleCmd::Shell(e);
            assert(r@ == expanded_command(cmd@, cwd@, container_workspace_folder@, container_env@, local_env@));
            r
        },
        LifecycleCmd::Exec(args) => {
            let mut out: Vec<String> = Vec::new();
            let mut i: usize = 0;
            while i < args.len()
                invariant
                    i <= args.len(),
                    out.len() == i,
                    forall|j: int| 0 <= j < i ==> #[trigger] out@[j]@ == expanded(
                        args@[j]@,
                        cwd@,
                        container_workspace_folder@,
                        container_env@,
                        local_env@,
                    ),
                decreases args.len() - i,
            {
                out.push(expand_variables(args[i].as_str(), cwd, container_workspace_folder, container_env, local_env));
                i += 1;
            }
            let r = LifecycleCmd::Exec(out);
            proof {
                if let CommandModel::Exec(x) = r@ {
                    assert(x =~= texts(args@).map_values(
                        |a: Seq<char>| expanded(a, cwd@, container_workspace_folder@, container_env@, local_env@),
                    ));
                }
            }
            assert(r@ == expanded_command(cmd@, cwd@, container_workspace_folder@, container_env@, local_env@));
            r
        },
        LifecycleCmd::Parallel(cmds) => {
            let mut out: Vec<LifecycleCmd> = Vec::new();
            let mut i: usize = 0;
            while i < cmds.len()
                invariant
                    i <= cmds.len(),
                    *cmd == LifecycleCmd::Parallel(*cmds),
                    out.len() == i,
                    forall|j: int| 0 <= j < i ==> #[trigger] out@[j]@ == expanded_command(
                        cmds@[j]@,
                        cwd@,
                        container_workspace_folder@,
                        container_env@,
                        local_env@,
                    ),
                decreases cmds.len() - i,
            {
                proof {
                    assert(decreases_to!(*cmd => (*cmd)->Parallel_0));
                    assert(decreases_to!((*cmd)->Parallel_0 => (*cmd)->Parallel_0[i as int]));
                }
                out.push(expand_lifecycle_cmd(&cmds[i], cwd, container_workspace_folder, container_env, local_env));
                i += 1;
            }
            let r = LifecycleCmd::Parallel(out);
            proof {
                if let CommandModel::Parallel(x) = r@ {
                    if let CommandModel::Parallel(y) = cmd@ {
                        assert(y.len() == cmds.len());
                        assert forall|k: int| 0 <= k < y.len() implies #[trigger] x[k] == expanded_command(
                            y[k],
                            cwd@,
                            container_workspace_folder@,
                            container_env@,
                            local_env@,
                        ) by {
                            assert(y[k] == cmds@[k]@);
                            assert(x[k] == out@[k]@);
                        }
                        let ghost e = expanded_command(cmd@, cwd@, container_workspace_folder@, container_env@, local_env@);
                        if let CommandModel::Parallel(z) = e {
                            assert forall|k: int| 0 <= k < y.len() implies #[trigger] z[k] == expanded_command(
                                y[k],
                                cwd@,
                                container_workspace_folder@,
                                container_env@,
                                local_env@,
                            ) by {}
                            assert(x =~= z);
                        }
                    }
                }
            }
            assert(r@ == expanded_command(cmd@, cwd@, container_workspace_folder@, container_env@, local_env@));
            r
        },
    }
}

} // verus!
