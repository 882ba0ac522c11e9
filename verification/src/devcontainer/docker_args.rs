use vstd::prelude::*;

use super::config::{default_workspace_folder, opt_texts, texts, BuildConfig, CommonConfig, DockerfileConfig};
use crate::devcontainer::jsonc::access::StringMap;
use crate::docker::tag::file_name_exec;
use crate::text::{chars_of, lines_view, push_str, string_of};

verus! {

/// `path` resolved against `dir`, as `Path::join` has it: an absolute path stays as it
/// is, otherwise a `/` separates the two where `dir` does not end in one.
pub open spec fn join_path(dir: Seq<char>, path: Seq<char>) -> Seq<char> {
    if path.len() > 0 && path[0] == '/' {
        path
    } else if dir.len() > 0 && dir.last() != '/' {
        dir + "/"@ + path
    } else {
        dir + path
    }
}

pub fn join_path_exec(dir: &str, path: &str) -> (r: String)
    ensures
        r@ == join_path(dir@, path@),
{
    let d = chars_of(dir);
    let p = chars_of(path);
    if p.len() > 0 && p[0] == '/' {
        return path.to_owned();
    }
    let mut out: Vec<char> = Vec::new();
    push_str(&mut out, dir);
    if d.len() > 0 && d[d.len() - 1] != '/' {
        push_str(&mut out, "/");
    }
    push_str(&mut out, path);
    proof { reveal_strlit(""); }
    assert(out@ =~= join_path(dir@, path@));
    string_of(out.as_slice())
}

pub open spec fn opt_text(o: Option<String>, default: Seq<char>) -> Seq<char> {
    match o {
        Some(s) => s@,
        None => default,
    }
}

/// The `--build-arg` pairs of `args[..n]`.
pub open spec fn build_arg_flags(args: Seq<(String, String)>, n: int) -> Seq<Seq<char>>
    decreases n,
{
    if n <= 0 {
        Seq::empty()
    } else {
        build_arg_flags(args, n - 1) + seq!["--build-arg"@, args[n - 1].0@ + "="@ + args[n - 1].1@]
    }
}

/// The `--cache-from` pairs of `sources[..n]`.
pub open spec fn cache_from_flags(sources: Seq<String>, n: int) -> Seq<Seq<char>>
    decreases n,
{
    if n <= 0 {
        Seq::empty()
    } else {
        cache_from_flags(sources, n - 1) + seq!["--cache-from"@, sources[n - 1]@]
    }
}

/// The arguments of `docker build` for a build configuration.
pub open spec fn build_args(b: BuildConfig, dir: Seq<char>, tag: Seq<char>) -> Seq<Seq<char>> {
    seq!["-t"@, tag, "-f"@, join_path(dir, opt_text(b.dockerfile, "Dockerfile"@))] + match b.target {
        Some(t) => seq!["--target"@, t@],
        None => Seq::empty(),
    } + match b.args {
        Some(a) => build_arg_flags(a@, a.len() as int),
        None => Seq::empty(),
    } + match b.cache_from {
        Some(c) => cache_from_flags(c@, c.len() as int),
        None => Seq::empty(),
    } + match b.options {
        Some(o) => lines_view(o@),
        None => Seq::empty(),
    } + seq![join_path(dir, opt_text(b.context, "."@))]
}

fn push_text(args: &mut Vec<String>, s: &str)
    ensures
        lines_view(final(args)@) == lines_view(old(args)@).push(s@),
{
    let t = s.to_owned();
    let ghost before = args@;
    args.push(t);
    assert(lines_view(args@) =~= lines_view(before).push(s@));
}

/// The arguments of `docker build`: the tag, the Dockerfile and the context resolved
/// against the devcontainer folder, then the target, build arguments, cache sources
/// and extra options that are given.
pub fn container_build_args(build: &BuildConfig, devcontainer_dir: &str, tag: &str) -> (r: Vec<String>)
    ensures
        lines_view(r@) == build_args(*build, devcontainer_dir@, tag@),
{
    let mut args: Vec<String> = Vec::new();
    push_text(&mut args, "-t");
    push_text(&mut args, tag);
    push_text(&mut args, "-f");
    let dockerfile = match &build.dockerfile {
        Some(d) => join_path_exec(devcontainer_dir, d.as_str()),
        None => join_path_exec(devcontainer_dir, "Dockerfile"),
    };
    push_text(&mut args, dockerfile.as_str());
    let ghost head = lines_view(args@);
    assert(head =~= seq!["-t"@, tag@, "-f"@, join_path(devcontainer_dir@, opt_text(build.dockerfile, "Dockerfile"@))]);
    if let Some(t) = &build.target {
        push_text(&mut args, "--target");
        push_text(&mut args, t.as_str());
    }
    let ghost with_target = lines_view(args@);
    assert(with_target =~= head + match build.target {
        Some(t) => seq!["--target"@, t@],
        None => Seq::<Seq<char>>::empty(),
    });
    if let Some(a) = &build.args {
        let mut i: usize = 0;
        while i < a.len()
            invariant
                i <= a.len(),
                lines_view(args@) == with_target + build_arg_flags(a@, i as int),
            decreases a.len() - i,
        {
            push_text(&mut args, "--build-arg");
            let mut kv: Vec<char> = Vec::new();
            push_str(&mut kv, a[i].0.as_str());
            push_str(&mut kv, "=");
            push_str(&mut kv, a[i].1.as_str());
            proof { reveal_strlit(""); }
            assert(kv@ =~= a@[i as int].0@ + "="@ + a@[i as int].1@);
            let s = string_of(kv.as_slice());
            push_text(&mut args, s.as_str());
            assert(lines_view(args@) =~= with_target + build_arg_flags(a@, i + 1));
            i += 1;
        }
    }
    let ghost with_args = lines_view(args@);
    assert(with_args =~= with_target + match build.args {
        Some(a) => build_arg_flags(a@, a.len() as int),
        None => Seq::<Seq<char>>::empty(),
    });
    if let Some(c) = &build.cache_from {
        let mut i: usize = 0;
        while i < c.len()
            invariant
                i <= c.len(),
                lines_view(args@) == with_args + cache_from_flags(c@, i as int),
            decreases c.len() - i,
        {
            push_text(&mut args, "--cache-from");
            push_text(&mut args, c[i].as_str());
            assert(lines_view(args@) =~= with_args + cache_from_flags(c@, i + 1));
            i += 1;
        }
    }
    let ghost with_cache = lines_view(args@);
    assert(with_cache =~= with_args + match build.cache_from {
        Some(c) => cache_from_flags(c@, c.len() as int),
        None => Seq::<Seq<char>>::empty(),
    });
    if let Some(o) = &build.options {
        let mut i: usize = 0;
        while i < o.len()
            invariant
                i <= o.len(),
                lines_view(args@) == with_cache + lines_view(o@).take(i as int),
            decreases o.len() - i,
        {
            push_text(&mut args, o[i].as_str());
            assert(lines_view(o@).take(i + 1) =~= lines_view(o@).take(i as int).push(o@[i as int]@));
            i += 1;
        }
        assert(lines_view(o@).take(o.len() as int) =~= lines_view(o@));
    }
    let ghost with_options = lines_view(args@);
    assert(with_options =~= with_cache + match build.options {
        Some(o) => lines_view(o@),
        None => Seq::<Seq<char>>::empty(),
    });
    let context = match &build.context {
        Some(c) => join_path_exec(devcontainer_dir, c.as_str()),
        None => join_path_exec(devcontainer_dir, "."),
    };
    push_text(&mut args, context.as_str());
    assert(lines_view(args@) =~= build_args(*build, devcontainer_dir@, tag@));
    args
}

/// The script that keeps a container running.
pub const CONTAINER_LOOP_SCRIPT: &'static str = "echo Container started\ntrap \"exit 0\" 15\nexec \"$@\"\nwhile sleep 1 & wait $!; do :; done";

/// The arguments of the shell that starts a container: the loop script, then the
/// image's entrypoint and command where `overrideCommand` is `false`.
pub fn container_start_args(
    override_command: Option<bool>,
    image_entrypoint: &[String],
    image_cmd: &[String],
) -> (r: Vec<String>)
    ensures
        lines_view(r@) == seq!["-c"@, CONTAINER_LOOP_SCRIPT@, "-"@] + if override_command == Some(false) {
            lines_view(image_entrypoint@) + lines_view(image_cmd@)
        } else {
            Seq::empty()
        },
{
    let mut args: Vec<String> = Vec::new();
    push_text(&mut args, "-c");
    push_text(&mut args, CONTAINER_LOOP_SCRIPT);
    push_text(&mut args, "-");
    let ghost head = lines_view(args@);
    if override_command == Some(false) {
        let mut i: usize = 0;
        while i < image_entrypoint.len()
            invariant
                i <= image_entrypoint.len(),
                lines_view(args@) == head + lines_view(image_entrypoint@).take(i as int),
            decreases image_entrypoint.len() - i,
        {
            push_text(&mut args, image_entrypoint[i].as_str());
            assert(lines_view(image_entrypoint@).take(i + 1) =~= lines_view(image_entrypoint@).take(i as int).push(image_entrypoint@[i as int]@));
            i += 1;
        }
        assert(lines_view(image_entrypoint@).take(image_entrypoint.len() as int) =~= lines_view(image_entrypoint@));
        let ghost mid = lines_view(args@);
        let mut j: usize = 0;
        while j < image_cmd.len()
            invariant
                j <= image_cmd.len(),
                lines_view(args@) == mid + lines_view(image_cmd@).take(j as int),
            decreases image_cmd.len() - j,
        {
            push_text(&mut args, image_cmd[j].as_str());
            assert(lines_view(image_cmd@).take(j + 1) =~= lines_view(image_cmd@).take(j as int).push(image_cmd@[j as int]@));
            j += 1;
        }
        assert(lines_view(image_cmd@).take(image_cmd.len() as int) =~= lines_view(image_cmd@));
    }
    assert(lines_view(args@) =~= seq!["-c"@, CONTAINER_LOOP_SCRIPT@, "-"@] + if override_command == Some(false) {
        lines_view(image_entrypoint@) + lines_view(image_cmd@)
    } else {
        Seq::<Seq<char>>::empty()
    });
    args
}

/// `flag` before each of `values`.
pub open spec fn flag_pairs(flag: Seq<char>, values: Seq<Seq<char>>) -> Seq<Seq<char>>
    decreases values.len(),
{
    if values.len() == 0 {
        Seq::empty()
    } else {
        flag_pairs(flag, values.drop_last()) + seq![flag, values.last()]
    }
}

/// `--env` before each `KEY=value` of `env`.
pub open spec fn env_flags(env: Seq<(Seq<char>, Seq<char>)>) -> Seq<Seq<char>>
    decreases env.len(),
{
    if env.len() == 0 {
        Seq::empty()
    } else {
        env_flags(env.drop_last()) + seq!["--env"@, env.last().0 + "="@ + env.last().1]
    }
}

/// The folder of the workspace in the container: the configured one, else one named
/// after the workspace folder under `/workspaces`.
pub open spec fn run_workspace_folder(common: CommonConfig, local_folder: Seq<char>) -> Seq<char> {
    match common.workspace_folder {
        Some(w) => w@,
        None => default_workspace_folder(local_folder),
    }
}

/// The first options of `docker run`: detached, the workspace label, the workspace
/// mount and the working folder.
pub open spec fn run_head(
    common: CommonConfig,
    workspace_mount: Option<Seq<char>>,
    local_folder: Seq<char>,
) -> Seq<Seq<char>> {
    let folder = run_workspace_folder(common, local_folder);
    let mount = match workspace_mount {
        Some(m) => m,
        None => "type=bind,source="@ + local_folder + ",target="@ + folder,
    };
    seq![
        "-d"@,
        "--label"@,
        "devcontainer.local_folder="@ + local_folder,
        "--mount"@,
        mount,
        "-w"@,
        folder,
    ]
}

/// The flags that the settings `user`, `init` and `privileged` give.
pub open spec fn user_flags(common: CommonConfig) -> Seq<Seq<char>> {
    user_part(common) + init_part(common) + privileged_part(common)
}

pub open spec fn user_part(common: CommonConfig) -> Seq<Seq<char>> {
    match common.container_user {
        Some(u) => seq!["--user"@, u@],
        None => Seq::empty(),
    }
}

pub open spec fn init_part(common: CommonConfig) -> Seq<Seq<char>> {
    if common.init == Some(true) {
        seq!["--init"@]
    } else {
        Seq::empty()
    }
}

pub open spec fn privileged_part(common: CommonConfig) -> Seq<Seq<char>> {
    if common.privileged == Some(true) {
        seq!["--privileged"@]
    } else {
        Seq::empty()
    }
}

/// The options of `docker run` for a container of the workspace `local_folder`.
pub open spec fn run_options(
    common: CommonConfig,
    run_args: Option<Seq<String>>,
    workspace_mount: Option<Seq<char>>,
    local_folder: Seq<char>,
) -> Seq<Seq<char>> {
    run_head(common, workspace_mount, local_folder) + flag_pairs("--mount"@, lines_view(common.mounts@))
        + env_flags(common.container_env.listing()) + user_flags(common) + flag_pairs(
        "--cap-add"@,
        lines_view(common.cap_add@),
    ) + flag_pairs("--security-opt"@, lines_view(common.security_opt@)) + match run_args {
        Some(a) => lines_view(a),
        None => Seq::empty(),
    }
}

fn push_flag_pairs(args: &mut Vec<String>, flag: &str, values: &Vec<String>)
    ensures
        lines_view(final(args)@) == lines_view(old(args)@) + flag_pairs(flag@, lines_view(values@)),
{
    let ghost start = lines_view(args@);
    let mut i: usize = 0;
    while i < values.len()
        invariant
            i <= values.len(),
            lines_view(args@) == start + flag_pairs(flag@, lines_view(values@).take(i as int)),
        decreases values.len() - i,
    {
        push_text(args, flag);
        push_text(args, values[i].as_str());
        assert(lines_view(values@).take(i + 1).drop_last() =~= lines_view(values@).take(i as int));
        assert(lines_view(args@) =~= start + flag_pairs(flag@, lines_view(values@).take(i + 1)));
        i += 1;
    }
    assert(lines_view(values@).take(values.len() as int) =~= lines_view(values@));
}

fn push_all_texts(args: &mut Vec<String>, values: &[String])
    ensures
        lines_view(final(args)@) == lines_view(old(args)@) + lines_view(values@),
{
    let ghost start = lines_view(args@);
    let mut i: usize = 0;
    while i < values.len()
        invariant
            i <= values.len(),
            lines_view(args@) == start + lines_view(values@).take(i as int),
        decreases values.len() - i,
    {
        push_text(args, values[i].as_str());
        assert(lines_view(values@).take(i + 1) =~= lines_view(values@).take(i as int).push(values@[i as int]@));
        i += 1;
    }
    assert(lines_view(values@).take(values.len() as int) =~= lines_view(values@));
}

fn concat3(a: &str, b: &str, c: &str) -> (r: String)
    ensures
        r@ == a@ + b@ + c@,
{
    let mut v: Vec<char> = Vec::new();
    push_str(&mut v, a);
    push_str(&mut v, b);
    push_str(&mut v, c);
    string_of(v.as_slice())
}

/// The workspace folder in the container (see [`run_workspace_folder`]).
pub fn workspace_folder_for(common: &CommonConfig, local_folder: &str) -> (r: String)
    ensures
        r@ == run_workspace_folder(*common, local_folder@),
{
    match &common.workspace_folder {
        Some(w) => w.clone(),
        None => {
            let name = match file_name_exec(&chars_of(local_folder)) {
                Some(n) => string_of(n.as_slice()),
                None => String::new(),
            };
            proof { reveal_strlit(""); }
            concat3("/workspaces/", name.as_str(), "")
        },
    }
}

fn run_head_exec(common: &CommonConfig, workspace_mount: Option<&str>, local_folder: &str) -> (r: Vec<String>)
    ensures
        lines_view(r@) == run_head(*common, match workspace_mount {
            Some(m) => Some(m@),
            None => None,
        }, local_folder@),
{
    let folder = workspace_folder_for(common, local_folder);
    let mount = match workspace_mount {
        Some(m) => m.to_owned(),
        None => {
            let a = concat3("type=bind,source=", local_folder, ",target=");
            concat3(a.as_str(), folder.as_str(), "")
        },
    };
    let mut args: Vec<String> = Vec::new();
    push_text(&mut args, "-d");
    push_text(&mut args, "--label");
    let l1 = concat3("devcontainer.local_folder=", local_folder, "");
    push_text(&mut args, l1.as_str());
    push_text(&mut args, "--mount");
    push_text(&mut args, mount.as_str());
    push_text(&mut args, "-w");
    push_text(&mut args, folder.as_str());
    proof {
        reveal_strlit("");
        assert(lines_view(args@) =~= run_head(*common, match workspace_mount {
            Some(m) => Some(m@),
            None => None,
        }, local_folder@));
    }
    args
}

fn push_env_flags(args: &mut Vec<String>, env: &StringMap)
    requires
        env.wf(),
    ensures
        lines_view(final(args)@) == lines_view(old(args)@) + env_flags(env.listing()),
{
    let ghost start = lines_view(args@);
    let ghost l = env.listing();
    let pairs = env.entries();
    let mut i: usize = 0;
    while i < pairs.len()
        invariant
            i <= pairs.len(),
            l == env.listing(),
            pairs.len() == l.len(),
            forall|j: int| 0 <= j < pairs.len() ==> (#[trigger] pairs@[j].0@, pairs@[j].1@) == l[j],
            lines_view(args@) == start + env_flags(l.take(i as int)),
        decreases pairs.len() - i,
    {
        push_text(args, "--env");
        let kv = concat3(pairs[i].0.as_str(), "=", pairs[i].1.as_str());
        push_text(args, kv.as_str());
        assert(l.take(i + 1).drop_last() =~= l.take(i as int));
        assert(l.take(i + 1).last() == (pairs@[i as int].0@, pairs@[i as int].1@));
        assert(lines_view(args@) =~= start + env_flags(l.take(i + 1)));
        i += 1;
    }
    assert(l.take(pairs.len() as int) =~= l);
}

fn push_user_flags(args: &mut Vec<String>, common: &CommonConfig)
    ensures
        lines_view(final(args)@) == lines_view(old(args)@) + user_flags(*common),
{
    let ghost start = lines_view(args@);
    if let Some(u) = &common.container_user {
        push_text(args, "--user");
        push_text(args, u.as_str());
    }
    let ghost a = lines_view(args@);
    if common.init == Some(true) {
        push_text(args, "--init");
    }
    let ghost b = lines_view(args@);
    if common.privileged == Some(true) {
        push_text(args, "--privileged");
    }
    proof {
        assert(a =~= start + user_part(*common));
        assert(b =~= start + user_part(*common) + init_part(*common));
        assert(lines_view(args@) =~= start + user_flags(*common));
    }
}

/// The options of `docker run`: detached, labelled with the workspace folder, the
/// workspace mounted (by `workspace_mount` where it is given) and made the working
/// folder, then the configured mounts, environment, user, `--init`, `--privileged`,
/// capabilities, security options and the extra `run_args`.
pub fn container_run_options(
    common: &CommonConfig,
    run_args: Option<&[String]>,
    workspace_mount: Option<&str>,
    local_folder: &str,
) -> (r: Vec<String>)
    requires
        common.container_env.wf(),
    ensures
        lines_view(r@) == run_options(*common, match run_args {
            Some(a) => Some(a@),
            None => None,
        }, match workspace_mount {
            Some(m) => Some(m@),
            None => None,
        }, local_folder@),
{
    let mut args = run_head_exec(common, workspace_mount, local_folder);
    push_flag_pairs(&mut args, "--mount", &common.mounts);
    push_env_flags(&mut args, &common.container_env);
    push_user_flags(&mut args, common);
    push_flag_pairs(&mut args, "--cap-add", &common.cap_add);
    push_flag_pairs(&mut args, "--security-opt", &common.security_opt);
    match run_args {
        Some(extra) => push_all_texts(&mut args, extra),
        None => {
            assert(lines_view(args@) =~= lines_view(args@) + Seq::<Seq<char>>::empty());
        },
    }
    args
}

pub open spec fn opt_pairs(o: Option<Vec<(String, String)>>) -> Option<Seq<(Seq<char>, Seq<char>)>> {
    match o {
        Some(v) => Some(Seq::new(v.len() as nat, |i: int| (v@[i].0@, v@[i].1@))),
        None => None,
    }
}

fn copy_texts(o: &Option<Vec<String>>) -> (r: Option<Vec<String>>)
    ensures
        opt_texts(r) == opt_texts(*o),
{
    match o {
        None => None,
        Some(v) => {
            let mut out: Vec<String> = Vec::new();
            let mut i: usize = 0;
            while i < v.len()
                invariant
                    i <= v.len(),
                    out.len() == i,
                    forall|j: int| 0 <= j < i ==> #[trigger] out@[j]@ == v@[j]@,
                decreases v.len() - i,
            {
                out.push(v[i].clone());
                i += 1;
            }
            assert(texts(out@) =~= texts(v@));
            Some(out)
        },
    }
}

fn copy_pairs(o: &Option<Vec<(String, String)>>) -> (r: Option<Vec<(String, String)>>)
    ensures
        opt_pairs(r) == opt_pairs(*o),
{
    match o {
        None => None,
        Some(v) => {
            let mut out: Vec<(String, String)> = Vec::new();
            let mut i: usize = 0;
            while i < v.len()
                invariant
                    i <= v.len(),
                    out.len() == i,
                    forall|j: int| 0 <= j < i ==> #[trigger] out@[j].0@ == v@[j].0@ && out@[j].1@ == v@[j].1@,
                decreases v.len() - i,
            {
                out.push((v[i].0.clone(), v[i].1.clone()));
                i += 1;
            }
            assert(opt_pairs(Some(out)) =~~= opt_pairs(Some(*v)));
            Some(out)
        },
    }
}

/// The build settings of a Dockerfile configuration: those of its `build` section,
/// with its top-level `dockerFile` and `context` where the section leaves them out.
pub fn normalize_dockerfile_config(config: &DockerfileConfig) -> (r: BuildConfig)
    ensures
        r.dockerfile == match config.build {
            Some(b) => match b.dockerfile {
                Some(d) => Some(d),
                None => Some(config.docker_file),
            },
            None => Some(config.docker_file),
        },
        r.context == match config.build {
            Some(b) => match b.context {
                Some(c) => Some(c),
                None => config.context,
            },
            None => config.context,
        },
        r.target == match config.build {
            Some(b) => b.target,
            None => None,
        },
        opt_pairs(r.args) == match config.build {
            Some(b) => opt_pairs(b.args),
            None => None,
        },
        opt_texts(r.cache_from) == match config.build {
            Some(b) => opt_texts(b.cache_from),
            None => None,
        },
        opt_texts(r.options) == match config.build {
            Some(b) => opt_texts(b.options),
            None => None,
        },
{
    match &config.build {
        Some(b) => BuildConfig {
            dockerfile: match &b.dockerfile {
                Some(d) => Some(d.clone()),
                None => Some(config.docker_file.clone()),
            },
            context: match &b.context {
                Some(c) => Some(c.clone()),
                None => config.context.clone(),
            },
            target: b.target.clone(),
            args: copy_pairs(&b.args),
            cache_from: copy_texts(&b.cache_from),
            options: copy_texts(&b.options),
        },
        None => BuildConfig {
            dockerfile: Some(config.docker_file.clone()),
            context: config.context.clone(),
            target: None,
            args: None,
            cache_from: None,
            options: None,
        },
    }
}

} // verus!
