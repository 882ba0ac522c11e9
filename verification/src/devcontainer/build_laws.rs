use vstd::prelude::*;

use super::config::BuildConfig;
use super::docker_args::{build_arg_flags, build_args, cache_from_flags, join_path, opt_text};
use crate::text::lines_view;

verus! {

/// The pairs written for the first `n` build arguments: `--build-arg` and then
/// `NAME=value`, for each argument in order.
proof fn lemma_build_arg_pairs(a: Seq<(String, String)>, n: int)
    requires
        0 <= n <= a.len(),
    ensures
        build_arg_flags(a, n).len() == 2 * n,
        forall|i: int| 0 <= i < n ==> #[trigger] build_arg_flags(a, n)[2 * i] == "--build-arg"@
            && build_arg_flags(a, n)[2 * i + 1] == a[i].0@ + "="@ + a[i].1@,
    decreases n,
{
    if n > 0 {
        lemma_build_arg_pairs(a, n - 1);
        let f = build_arg_flags(a, n);
        let g = build_arg_flags(a, n - 1);
        assert forall|i: int| 0 <= i < n implies #[trigger] f[2 * i] == "--build-arg"@
            && f[2 * i + 1] == a[i].0@ + "="@ + a[i].1@ by {
            if i < n - 1 {
                assert(f[2 * i] == g[2 * i]);
                assert(f[2 * i + 1] == g[2 * i + 1]);
            }
        }
    }
}

/// Where the build arguments start among the arguments of `docker build`: after the
/// tag and the Dockerfile, and after the target where there is one.
pub open spec fn build_arg_start(b: BuildConfig) -> int {
    if b.target is Some {
        6
    } else {
        4
    }
}

/// The two entries of `r` for the `i`-th pair from `start` on.
pub open spec fn pair_at(r: Seq<Seq<char>>, start: int, i: int) -> (Seq<char>, Seq<char>) {
    (r[start + 2 * i], r[start + 2 * i + 1])
}

/// Every build argument `(NAME, value)` of a build configuration is passed to
/// `docker build`, in order, as the pair `--build-arg`, `NAME=value`: the pairs stand
/// one after the other, two entries per argument, from [`build_arg_start`] on.
pub proof fn law_every_build_arg_passed(b: BuildConfig, dir: Seq<char>, tag: Seq<char>)
    requires
        b.args is Some,
    ensures
        build_arg_start(b) + 2 * b.args->0@.len() < build_args(b, dir, tag).len(),
        forall|i: int| 0 <= i < b.args->0@.len() ==> #[trigger] pair_at(build_args(b, dir, tag), build_arg_start(b), i)
            == ("--build-arg"@, b.args->0@[i].0@ + "="@ + b.args->0@[i].1@),
{
    let a = b.args->0@;
    let r = build_args(b, dir, tag);
    let s = build_arg_start(b);
    lemma_build_arg_pairs(a, a.len() as int);
    let f = build_arg_flags(a, a.len() as int);
    let p0 = seq!["-t"@, tag, "-f"@, join_path(dir, opt_text(b.dockerfile, "Dockerfile"@))];
    let p1 = match b.target {
        Some(t) => seq!["--target"@, t@],
        None => Seq::<Seq<char>>::empty(),
    };
    let p3 = match b.cache_from {
        Some(c) => cache_from_flags(c@, c.len() as int),
        None => Seq::empty(),
    };
    let p4 = match b.options {
        Some(o) => lines_view(o@),
        None => Seq::empty(),
    };
    let p5 = seq![join_path(dir, opt_text(b.context, "."@))];
    assert(r == p0 + p1 + f + p3 + p4 + p5);
    assert(p0.len() + p1.len() == s);
    let q = p0 + p1 + f;
    assert(s + 2 * a.len() < r.len());
    assert forall|k: int| 0 <= k < f.len() implies #[trigger] r[s + k] == f[k] by {
        assert(q[s + k] == f[k]);
        assert(r[s + k] == q[s + k]);
    }
    assert forall|i: int| 0 <= i < a.len() implies #[trigger] pair_at(r, s, i) == ("--build-arg"@, a[i].0@ + "="@ + a[i].1@) by {
        assert(r[s + 2 * i] == f[2 * i]);
        assert(r[s + (2 * i + 1)] == f[2 * i + 1]);
    }
}

} // verus!
