use vstd::prelude::*;

use crate::error::Error;
use crate::features::manifest::Feature;
use crate::features::source::{
    find_char, first_index_of, last_index_of, lemma_first_index_of, lemma_last_index_of, rfind_char,
};
use crate::devcontainer::jsonc::model::JsonValue;
use crate::devcontainer::jsonc::writer::compact_text;
use crate::docker::tag::{file_name, file_name_exec};
use crate::text::{chars_of, push_all, push_str, same_text, string_of, sub_chars};
use vstd::set_lib::{lemma_int_range, lemma_len_subset, set_int_range};

verus! {

/// The name a feature reference gives: what follows its last `/`, up to its first `:`.
pub open spec fn short_name(r: Seq<char>) -> Seq<char> {
    let tail = match last_index_of(r, '/', r.len() as int) {
        Some(i) => r.skip(i + 1),
        None => r,
    };
    match first_index_of(tail, ':', 0) {
        Some(k) => tail.take(k),
        None => tail,
    }
}

fn short_name_of(r: &str) -> (s: String)
    ensures
        s@ == short_name(r@),
{
    let v = chars_of(r);
    let tail = match rfind_char(&v, '/') {
        Some(i) => {
            proof { lemma_last_index_of(v@, '/', v.len() as int); }
            let t = sub_chars(&v, i + 1, v.len());
            assert(t@ =~= v@.skip(i + 1));
            t
        },
        None => {
            let t = sub_chars(&v, 0, v.len());
            assert(t@ =~= v@);
            t
        },
    };
    let name = match find_char(&tail, ':', 0) {
        Some(k) => {
            proof { lemma_first_index_of(tail@, ':', 0); }
            let t = sub_chars(&tail, 0, k);
            assert(t@ =~= tail@.take(k as int));
            t
        },
        None => tail,
    };
    string_of(name.as_slice())
}

/// The short ids of features.
pub open spec fn ids_of(fs: Seq<Feature>) -> Seq<Seq<char>> {
    Seq::new(fs.len(), |i: int| fs[i].short_id@)
}

/// What each feature says it installs after.
pub open spec fn deps_of(fs: Seq<Feature>) -> Seq<Seq<Seq<char>>> {
    Seq::new(fs.len(), |i: int| Seq::new(fs[i].installs_after.len() as nat, |m: int| fs[i].installs_after@[m]@))
}

pub open spec fn texts_of(v: Seq<String>) -> Seq<Seq<char>> {
    Seq::new(v.len(), |i: int| v[i]@)
}

/// The last index below `n` whose id is `s`.
pub open spec fn last_with(ids: Seq<Seq<char>>, s: Seq<char>, n: int) -> Option<int>
    decreases n,
{
    if n <= 0 {
        None
    } else if ids[n - 1] == s {
        Some(n - 1)
    } else {
        last_with(ids, s, n - 1)
    }
}

/// The feature a dependency names: the last with that id, else the last whose id is
/// the dependency's short name.
pub open spec fn resolve(ids: Seq<Seq<char>>, dep: Seq<char>) -> Option<int> {
    match last_with(ids, dep, ids.len() as int) {
        Some(j) => Some(j),
        None => last_with(ids, short_name(dep), ids.len() as int),
    }
}

/// The edges, from dependency to dependent, of the first `m` dependencies `ds` of feature `i`.
pub open spec fn dep_edges(ids: Seq<Seq<char>>, ds: Seq<Seq<char>>, i: int, m: int) -> Seq<(usize, usize)>
    decreases m,
{
    if m <= 0 {
        seq![]
    } else {
        let e = dep_edges(ids, ds, i, m - 1);
        match resolve(ids, ds[m - 1]) {
            Some(j) => e.push((j as usize, i as usize)),
            None => e,
        }
    }
}

/// The dependency edges of the first `n` features, feature by feature.
pub open spec fn edges_of(ids: Seq<Seq<char>>, deps: Seq<Seq<Seq<char>>>, n: int) -> Seq<(usize, usize)>
    decreases n,
{
    if n <= 0 {
        seq![]
    } else {
        edges_of(ids, deps, n - 1) + dep_edges(ids, deps[n - 1], n - 1, deps[n - 1].len() as int)
    }
}

/// The first position from `k` on of an override entry that names `id`.
pub open spec fn first_match(ov: Seq<Seq<char>>, id: Seq<char>, k: int) -> Option<int>
    decreases ov.len() - k,
{
    if k < 0 || k >= ov.len() {
        None
    } else if ov[k] == id || short_name(ov[k]) == id {
        Some(k)
    } else {
        first_match(ov, id, k + 1)
    }
}

/// How early the override order asks for a feature: the earlier it is named, the
/// higher; 0 where it is not named.
pub open spec fn priority(ov: Seq<Seq<char>>, id: Seq<char>) -> int {
    match first_match(ov, id, 0) {
        Some(p) => ov.len() - p,
        None => 0,
    }
}

/// A feature with no edge into it.
pub open spec fn is_source(es: Seq<(usize, usize)>, s: usize) -> bool {
    forall|k: int| 0 <= k < es.len() ==> #[trigger] es[k].1 != s
}

pub open spec fn is_permutation(o: Seq<usize>, n: nat) -> bool {
    &&& o.len() == n
    &&& forall|a: int| 0 <= a < n ==> #[trigger] o[a] < n
    &&& o.no_duplicates()
}

/// Every dependency comes before its dependent.
pub open spec fn respects(o: Seq<usize>, es: Seq<(usize, usize)>) -> bool {
    forall|k: int, a: int, b: int|
        #![trigger es[k], o[a], o[b]]
        0 <= k < es.len() && 0 <= a < o.len() && 0 <= b < o.len() && o[a] == es[k].0 && o[b] == es[k].1
            ==> a < b
}

/// Some order of the `n` features puts every dependency first.
pub open spec fn acyclic(es: Seq<(usize, usize)>, n: nat) -> bool {
    exists|o: Seq<usize>| is_permutation(o, n) && respects(o, es)
}

/// A feature without dependencies comes after none of lower priority, and after
/// none of its own priority that is listed after it.
pub open spec fn sources_by_priority(o: Seq<usize>, es: Seq<(usize, usize)>, pr: Seq<int>) -> bool {
    &&& forall|a: int, b: int|
        0 <= a < b < o.len() && is_source(es, #[trigger] o[b]) ==> pr[#[trigger] o[a] as int] >= pr[o[b] as int]
    &&& forall|a: int, b: int|
        0 <= a < b < o.len() && is_source(es, #[trigger] o[a]) && is_source(es, #[trigger] o[b])
            && pr[o[a] as int] == pr[o[b] as int] ==> o[a] < o[b]
}

/// The order in which features are installed.
pub open spec fn install_order_ok(o: Seq<usize>, es: Seq<(usize, usize)>, pr: Seq<int>, n: nat) -> bool {
    &&& is_permutation(o, n)
    &&& respects(o, es)
    &&& sources_by_priority(o, es, pr)
}

pub open spec fn priorities(ov: Seq<Seq<char>>, ids: Seq<Seq<char>>) -> Seq<int> {
    Seq::new(ids.len(), |i: int| priority(ov, ids[i]))
}

/// Number of edges below `m` into `j` that are not `done`.
pub open spec fn pending(es: Seq<(usize, usize)>, done: Set<int>, j: usize, m: int) -> nat
    decreases m,
{
    if m <= 0 {
        0
    } else {
        pending(es, done, j, m - 1) + if es[m - 1].1 == j && !done.contains(m - 1) {
            1nat
        } else {
            0nat
        }
    }
}

proof fn lemma_pending_bound(es: Seq<(usize, usize)>, done: Set<int>, j: usize, m: int)
    requires
        0 <= m,
    ensures
        pending(es, done, j, m) <= m,
    decreases m,
{
    if m > 0 {
        lemma_pending_bound(es, done, j, m - 1);
    }
}

proof fn lemma_pending_zero(es: Seq<(usize, usize)>, done: Set<int>, j: usize, m: int)
    requires
        0 <= m,
    ensures
        pending(es, done, j, m) == 0 <==> forall|k: int| 0 <= k < m && #[trigger] es[k].1 == j ==> done.contains(k),
    decreases m,
{
    if m > 0 {
        lemma_pending_zero(es, done, j, m - 1);
    }
}

proof fn lemma_pending_done(es: Seq<(usize, usize)>, done: Set<int>, j: usize, m: int, k: int)
    requires
        0 <= k < m,
        !done.contains(k),
    ensures
        pending(es, done.insert(k), j, m) + (if es[k].1 == j { 1nat } else { 0nat }) == pending(es, done, j, m),
    decreases m,
{
    if m - 1 > k {
        lemma_pending_done(es, done, j, m - 1, k);
    } else {
        lemma_pending_same(es, done, done.insert(k), j, m - 1);
    }
}

proof fn lemma_pending_same(es: Seq<(usize, usize)>, d1: Set<int>, d2: Set<int>, j: usize, m: int)
    requires
        forall|k: int| 0 <= k < m ==> (d1.contains(k) <==> d2.contains(k)),
    ensures
        pending(es, d1, j, m) == pending(es, d2, j, m),
    decreases m,
{
    if m > 0 {
        lemma_pending_same(es, d1, d2, j, m - 1);
    }
}

proof fn lemma_pending_push(es: Seq<(usize, usize)>, e: (usize, usize), j: usize, m: int)
    requires
        0 <= m <= es.len(),
    ensures
        pending(es.push(e), Set::empty(), j, m) == pending(es, Set::empty(), j, m),
    decreases m,
{
    if m > 0 {
        lemma_pending_push(es, e, j, m - 1);
    }
}

proof fn lemma_source_pending(es: Seq<(usize, usize)>, done: Set<int>, s: usize)
    requires
        is_source(es, s),
    ensures
        pending(es, done, s, es.len() as int) == 0,
{
    lemma_pending_zero(es, done, s, es.len() as int);
}

/// A sequence of distinct numbers below `n` has at most `n` of them, and all of
/// them where it has `n`.
proof fn lemma_distinct_bound(o: Seq<usize>, n: nat)
    requires
        n <= usize::MAX,
        o.no_duplicates(),
        forall|a: int| 0 <= a < o.len() ==> #[trigger] o[a] < n,
    ensures
        o.len() <= n,
        o.len() == n ==> forall|j: usize| j < n ==> o.contains(j),
        o.len() < n ==> exists|j: usize| j < n && !o.contains(j),
{
    let s = o.map_values(|x: usize| x as int);
    assert(s.no_duplicates()) by {
        assert forall|a: int, b: int| 0 <= a < s.len() && 0 <= b < s.len() && a != b implies s[a] != s[b] by {
            assert(o[a] != o[b]);
        }
    }
    s.unique_seq_to_set();
    lemma_int_range(0, n as int);
    assert(s.to_set().subset_of(set_int_range(0, n as int))) by {
        assert forall|x: int| s.to_set().contains(x) implies set_int_range(0, n as int).contains(x) by {
            let a = choose|a: int| 0 <= a < s.len() && s[a] == x;
            assert(o[a] < n);
        }
    }
    lemma_len_subset(s.to_set(), set_int_range(0, n as int));
    if o.len() == n {
        assert forall|j: usize| j < n implies o.contains(j) by {
            if !o.contains(j) {
                let r = set_int_range(0, n as int).remove(j as int);
                assert(s.to_set().subset_of(r)) by {
                    assert forall|x: int| s.to_set().contains(x) implies r.contains(x) by {
                        let a = choose|a: int| 0 <= a < s.len() && s[a] == x;
                        assert(o[a] < n);
                        assert(o[a] != j);
                    }
                }
                lemma_len_subset(s.to_set(), r);
            }
        }
    }
    if o.len() < n {
        if forall|j: usize| j < n ==> o.contains(j) {
            assert(set_int_range(0, n as int).subset_of(s.to_set())) by {
                assert forall|x: int| set_int_range(0, n as int).contains(x) implies s.to_set().contains(x) by {
                    assert(0 <= x < n);
                    let j = x as usize;
                    assert(j as int == x);
                    assert(o.contains(j));
                    let a = choose|a: int| 0 <= a < o.len() && o[a] == j;
                    assert(s[a] == x);
                }
            }
            lemma_len_subset(set_int_range(0, n as int), s.to_set());
        }
    }
}

/// Where every feature left out of `placed` has an edge from another left out, no
/// order of all features puts every dependency first.
proof fn lemma_stuck_is_cyclic(es: Seq<(usize, usize)>, n: nat, placed: Seq<usize>, o: Seq<usize>, a: int)
    requires
        n <= usize::MAX,
        is_permutation(o, n),
        respects(o, es),
        forall|k: int| 0 <= k < es.len() ==> #[trigger] es[k].0 < n,
        forall|j: usize|
            j < n && !placed.contains(j) ==> exists|k: int|
                0 <= k < es.len() && #[trigger] es[k].1 == j && !placed.contains(es[k].0),
        0 <= a <= n,
    ensures
        forall|b: int| 0 <= b < a ==> placed.contains(#[trigger] o[b]),
    decreases a,
{
    if a > 0 {
        lemma_stuck_is_cyclic(es, n, placed, o, a - 1);
        let j = o[a - 1];
        if !placed.contains(j) {
            let k = choose|k: int| 0 <= k < es.len() && #[trigger] es[k].1 == j && !placed.contains(es[k].0);
            let src = es[k].0;
            lemma_distinct_bound(o, n);
            assert(o.contains(src));
            let b = choose|b: int| 0 <= b < o.len() && o[b] == src;
            assert(es[k] == es[k] && o[b] == es[k].0 && o[a - 1] == es[k].1);
            assert(b < a - 1);
            assert(placed.contains(o[b]));
        }
    }
}

proof fn lemma_last_with(ids: Seq<Seq<char>>, s: Seq<char>, n: int)
    ensures
        last_with(ids, s, n) matches Some(j) ==> 0 <= j < n && ids[j] == s,
    decreases n,
{
    if n > 0 {
        lemma_last_with(ids, s, n - 1);
    }
}

fn find_last(features: &[Feature], s: &str) -> (r: Option<usize>)
    ensures
        match r {
            Some(j) => last_with(ids_of(features@), s@, features.len() as int) == Some(j as int),
            None => last_with(ids_of(features@), s@, features.len() as int) is None,
        },
{
    let mut n = features.len();
    while n > 0
        invariant
            n <= features.len(),
            last_with(ids_of(features@), s@, features.len() as int) == last_with(ids_of(features@), s@, n as int),
        decreases n,
    {
        if same_text(features[n - 1].short_id.as_str(), s) {
            return Some(n - 1);
        }
        n -= 1;
    }
    None
}

fn resolve_dep(features: &[Feature], dep: &str) -> (r: Option<usize>)
    ensures
        match r {
            Some(j) => resolve(ids_of(features@), dep@) == Some(j as int) && j < features.len(),
            None => resolve(ids_of(features@), dep@) is None,
        },
{
    let ghost ids = ids_of(features@);
    match find_last(features, dep) {
        Some(j) => {
            proof { lemma_last_with(ids, dep@, features.len() as int); }
            Some(j)
        },
        None => {
            let name = short_name_of(dep);
            let r = find_last(features, name.as_str());
            proof { lemma_last_with(ids, name@, features.len() as int); }
            r
        },
    }
}

fn priority_of(ov: &[String], id: &str) -> (r: usize)
    ensures
        r as int == priority(texts_of(ov@), id@),
{
    let ghost t = texts_of(ov@);
    let mut k: usize = 0;
    while k < ov.len()
        invariant
            k <= ov.len(),
            t == texts_of(ov@),
            first_match(t, id@, 0) == first_match(t, id@, k as int),
        decreases ov.len() - k,
    {
        if same_text(ov[k].as_str(), id) {
            return ov.len() - k;
        }
        let name = short_name_of(ov[k].as_str());
        if same_text(name.as_str(), id) {
            return ov.len() - k;
        }
        k += 1;
    }
    0
}

/// The dependency edges of `features` and, for each feature, how many edges lead into it.
fn dependency_edges(features: &[Feature]) -> (r: (Vec<(usize, usize)>, Vec<usize>))
    ensures
        r.0@ == edges_of(ids_of(features@), deps_of(features@), features.len() as int),
        forall|k: int| 0 <= k < r.0.len() ==> #[trigger] r.0@[k].0 < features.len() && r.0@[k].1 < features.len(),
        r.1.len() == features.len(),
        forall|j: int| 0 <= j < features.len() ==> #[trigger] r.1@[j] == pending(r.0@, Set::empty(), j as usize, r.0.len() as int),
{
    let ghost ids = ids_of(features@);
    let ghost deps = deps_of(features@);
    let n = features.len();
    let mut edges: Vec<(usize, usize)> = Vec::new();
    let mut in_degree: Vec<usize> = Vec::new();
    while in_degree.len() < n
        invariant
            in_degree.len() <= n,
            forall|j: int| 0 <= j < in_degree.len() ==> #[trigger] in_degree@[j] == 0,
        decreases n - in_degree.len(),
    {
        in_degree.push(0);
    }
    let mut i: usize = 0;
    while i < n
        invariant
            i <= n,
            n == features.len(),
            ids == ids_of(features@),
            deps == deps_of(features@),
            in_degree.len() == n,
            edges@ == edges_of(ids, deps, i as int),
            forall|k: int| 0 <= k < edges.len() ==> #[trigger] edges@[k].0 < n && edges@[k].1 < n,
            forall|j: int| 0 <= j < n ==> #[trigger] in_degree@[j] == pending(edges@, Set::empty(), j as usize, edges.len() as int),
        decreases n - i,
    {
        let ds = &features[i].installs_after;
        let ghost base = edges@;
        let mut m: usize = 0;
        while m < ds.len()
            invariant
                i < n,
                n == features.len(),
                ids == ids_of(features@),
                deps == deps_of(features@),
                m <= ds.len(),
                ds == &features@[i as int].installs_after,
                in_degree.len() == n,
                edges@ == base + dep_edges(ids, deps[i as int], i as int, m as int),
                forall|k: int| 0 <= k < edges.len() ==> #[trigger] edges@[k].0 < n && edges@[k].1 < n,
                forall|j: int| 0 <= j < n ==> #[trigger] in_degree@[j] == pending(edges@, Set::empty(), j as usize, edges.len() as int),
            decreases ds.len() - m,
        {
            assert(deps[i as int][m as int] == ds@[m as int]@);
            match resolve_dep(features, ds[m].as_str()) {
                Some(j) => {
                    let ghost before = edges@;
                    edges.push((j, i));
                    proof {
                        assert forall|x: int| 0 <= x < n implies #[trigger] pending(edges@, Set::empty(), x as usize, edges.len() as int)
                            == pending(before, Set::empty(), x as usize, before.len() as int) + if x == i { 1nat } else { 0nat } by {
                            lemma_pending_push(before, (j, i), x as usize, before.len() as int);
                        }
                        lemma_pending_bound(edges@, Set::empty(), i, edges.len() as int);
                        assert(edges@ == base + dep_edges(ids, deps[i as int], i as int, m + 1));
                    }
                    let d = in_degree[i];
                    in_degree.set(i, d + 1);
                },
                None => {
                    assert(edges@ == base + dep_edges(ids, deps[i as int], i as int, m + 1));
                },
            }
            m += 1;
        }
        assert(edges_of(ids, deps, i + 1) == edges_of(ids, deps, i as int) + dep_edges(ids, deps[i as int], i as int, deps[i as int].len() as int));
        i += 1;
    }
    (edges, in_degree)
}

proof fn lemma_push_contains(s: Seq<usize>, v: usize)
    ensures
        forall|w: usize| #[trigger] s.push(v).contains(w) <==> (s.contains(w) || w == v),
{
    assert forall|w: usize| #[trigger] s.push(v).contains(w) <==> (s.contains(w) || w == v) by {
        if s.contains(w) {
            let i = choose|i: int| 0 <= i < s.len() && s[i] == w;
            assert(s.push(v)[i] == w);
        }
        if w == v {
            assert(s.push(v)[s.len() as int] == w);
        }
        if s.push(v).contains(w) {
            let i = choose|i: int| 0 <= i < s.len() + 1 && s.push(v)[i] == w;
            if i < s.len() {
                assert(s[i] == w);
            }
        }
    }
}

fn max_priority(el: &Vec<usize>, prio: &Vec<usize>) -> (m: usize)
    requires
        el.len() > 0,
        forall|x: int| 0 <= x < el.len() ==> #[trigger] el@[x] < prio.len(),
    ensures
        forall|x: int| 0 <= x < el.len() ==> prio@[#[trigger] el@[x] as int] <= m,
        exists|x: int| 0 <= x < el.len() && prio@[#[trigger] el@[x] as int] == m,
{
    let mut m = prio[el[0]];
    let mut x: usize = 1;
    while x < el.len()
        invariant
            1 <= x <= el.len(),
            forall|x: int| 0 <= x < el.len() ==> #[trigger] el@[x] < prio.len(),
            forall|y: int| 0 <= y < x ==> prio@[#[trigger] el@[y] as int] <= m,
            exists|y: int| 0 <= y < x && prio@[#[trigger] el@[y] as int] == m,
        decreases el.len() - x,
    {
        if prio[el[x]] > m {
            m = prio[el[x]];
        }
        x += 1;
    }
    m
}

/// Splits the eligible features into those of priority `m`, which are placed in this
/// round, and the rest, keeping their order.
fn split_round(el: &Vec<usize>, prio: &Vec<usize>, m: usize, Ghost(es): Ghost<Seq<(usize, usize)>>) -> (r: (Vec<usize>, Vec<usize>))
    requires
        forall|x: int| 0 <= x < el.len() ==> #[trigger] el@[x] < prio.len(),
        el@.no_duplicates(),
        forall|x: int, y: int|
            0 <= x < y < el.len() && is_source(es, #[trigger] el@[x]) && is_source(es, #[trigger] el@[y]) ==> el@[x] < el@[y],
    ensures
        forall|v: usize|
            #![trigger el@.contains(v)]
            #![trigger r.0@.contains(v)]
            #![trigger r.1@.contains(v)]
            el@.contains(v) <==> (r.0@.contains(v) || r.1@.contains(v)),
        forall|y: int| 0 <= y < r.0.len() ==> prio@[#[trigger] r.0@[y] as int] == m,
        forall|y: int| 0 <= y < r.1.len() ==> prio@[#[trigger] r.1@[y] as int] != m,
        r.0@.no_duplicates(),
        r.1@.no_duplicates(),
        forall|x: int, y: int|
            0 <= x < y < r.0.len() && is_source(es, #[trigger] r.0@[x]) && is_source(es, #[trigger] r.0@[y]) ==> r.0@[x] < r.0@[y],
        forall|x: int, y: int|
            0 <= x < y < r.1.len() && is_source(es, #[trigger] r.1@[x]) && is_source(es, #[trigger] r.1@[y]) ==> r.1@[x] < r.1@[y],
{
    let mut round: Vec<usize> = Vec::new();
    let mut next: Vec<usize> = Vec::new();
    let mut x: usize = 0;
    while x < el.len()
        invariant
            x <= el.len(),
            forall|x: int| 0 <= x < el.len() ==> #[trigger] el@[x] < prio.len(),
            el@.no_duplicates(),
            forall|x: int, y: int|
                0 <= x < y < el.len() && is_source(es, #[trigger] el@[x]) && is_source(es, #[trigger] el@[y]) ==> el@[x] < el@[y],
            forall|v: usize| el@.take(x as int).contains(v) <==> (round@.contains(v) || next@.contains(v)),
            forall|y: int| #![trigger round@[y]] 0 <= y < round.len() ==> exists|z: int| 0 <= z < x && #[trigger] el@[z] == round@[y],
            forall|y: int| #![trigger next@[y]] 0 <= y < next.len() ==> exists|z: int| 0 <= z < x && #[trigger] el@[z] == next@[y],
            forall|y: int| 0 <= y < round.len() ==> prio@[#[trigger] round@[y] as int] == m,
            forall|y: int| 0 <= y < next.len() ==> prio@[#[trigger] next@[y] as int] != m,
            round@.no_duplicates(),
            next@.no_duplicates(),
            forall|a: int, b: int|
                0 <= a < b < round.len() && is_source(es, #[trigger] round@[a]) && is_source(es, #[trigger] round@[b]) ==> round@[a] < round@[b],
            forall|a: int, b: int|
                0 <= a < b < next.len() && is_source(es, #[trigger] next@[a]) && is_source(es, #[trigger] next@[b]) ==> next@[a] < next@[b],
        decreases el.len() - x,
    {
        let v = el[x];
        assert(el@.take(x + 1) =~= el@.take(x as int).push(v));
        proof {
            lemma_push_contains(el@.take(x as int), v);
            lemma_push_contains(round@, v);
            lemma_push_contains(next@, v);
        }
        assert(!el@.take(x as int).contains(v)) by {
            if el@.take(x as int).contains(v) {
                let z = choose|z: int| 0 <= z < x && el@.take(x as int)[z] == v;
                assert(el@[z] == el@[x as int]);
            }
        }
        if prio[v] == m {
            proof {
                assert forall|a: int| 0 <= a < round.len() && is_source(es, round@[a]) && is_source(es, v) implies round@[a] < v by {
                    let z = choose|z: int| 0 <= z < x && #[trigger] el@[z] == round@[a];
                    assert(el@[z] < el@[x as int]);
                }
            }
            round.push(v);
            proof {
                assert forall|y: int| #![trigger round@[y]] 0 <= y < round.len() implies exists|z: int| #![trigger el@[z]] 0 <= z < x + 1 && el@[z] == round@[y] by {
                    if y == round.len() - 1 {
                        assert(el@[x as int] == round@[y]);
                    } else {
                        let z = choose|z: int| 0 <= z < x && #[trigger] el@[z] == round@[y];
                        assert(el@[z] == round@[y]);
                    }
                }
            }
        } else {
            proof {
                assert forall|a: int| 0 <= a < next.len() && is_source(es, next@[a]) && is_source(es, v) implies next@[a] < v by {
                    let z = choose|z: int| 0 <= z < x && #[trigger] el@[z] == next@[a];
                    assert(el@[z] < el@[x as int]);
                }
            }
            next.push(v);
            proof {
                assert forall|y: int| #![trigger next@[y]] 0 <= y < next.len() implies exists|z: int| #![trigger el@[z]] 0 <= z < x + 1 && el@[z] == next@[y] by {
                    if y == next.len() - 1 {
                        assert(el@[x as int] == next@[y]);
                    } else {
                        let z = choose|z: int| 0 <= z < x && #[trigger] el@[z] == next@[y];
                        assert(el@[z] == next@[y]);
                    }
                }
            }
        }
        x += 1;
    }
    assert(el@.take(el.len() as int) =~= el@);
    (round, next)
}

/// The edges whose dependency is among `placed`.
pub open spec fn done_by(es: Seq<(usize, usize)>, placed: Seq<usize>) -> Set<int> {
    Set::new(|k: int| 0 <= k < es.len() && placed.contains(es[k].0))
}

/// Places feature `i`: appends it to `order`, counts its edges as done, and appends
/// to `next` each feature whose last pending edge that was.
fn place(
    i: usize,
    edges: &Vec<(usize, usize)>,
    in_degree: &mut Vec<usize>,
    order: &mut Vec<usize>,
    next: &mut Vec<usize>,
    Ghost(n): Ghost<nat>,
)
    requires
        old(in_degree).len() == n,
        i < n,
        forall|k: int| 0 <= k < edges.len() ==> #[trigger] edges@[k].0 < n && edges@[k].1 < n,
        forall|j: int| 0 <= j < n ==> #[trigger] old(in_degree)@[j] == pending(edges@, done_by(edges@, old(order)@), j as usize, edges.len() as int),
        !old(order)@.contains(i),
    ensures
        final(order)@ == old(order)@.push(i),
        final(in_degree).len() == n,
        forall|j: int| 0 <= j < n ==> #[trigger] final(in_degree)@[j] == pending(edges@, done_by(edges@, final(order)@), j as usize, edges.len() as int),
        final(next)@.len() >= old(next)@.len(),
        final(next)@.take(old(next)@.len() as int) == old(next)@,
        final(next)@.skip(old(next)@.len() as int).no_duplicates(),
        forall|z: int| old(next)@.len() <= z < final(next)@.len() ==> {
            let j = #[trigger] final(next)@[z];
            &&& j < n
            &&& pending(edges@, done_by(edges@, old(order)@), j, edges.len() as int) > 0
            &&& pending(edges@, done_by(edges@, final(order)@), j, edges.len() as int) == 0
            &&& !is_source(edges@, j)
        },
        forall|j: usize| j < n && pending(edges@, done_by(edges@, old(order)@), j, edges.len() as int) > 0
            && pending(edges@, done_by(edges@, final(order)@), j, edges.len() as int) == 0
            ==> final(next)@.skip(old(next)@.len() as int).contains(j),
        forall|j: usize| j < n ==> pending(edges@, done_by(edges@, final(order)@), j, edges.len() as int)
            <= pending(edges@, done_by(edges@, old(order)@), j, edges.len() as int),
{
    let ghost es = edges@;
    let ghost m = es.len() as int;
    let ghost done0 = done_by(es, order@);
    let ghost next0 = next@;
    order.push(i);
    let ghost done1 = done_by(es, order@);
    proof { lemma_push_contains(old(order)@, i); }
    let ghost mut cur = done0;
    let mut k: usize = 0;
    while k < edges.len()
        invariant
            es == edges@,
            m == es.len(),
            k <= edges.len(),
            in_degree.len() == n,
            i < n,
            forall|k: int| 0 <= k < edges.len() ==> #[trigger] edges@[k].0 < n && edges@[k].1 < n,
            done0 == done_by(es, old(order)@),
            done1 == done_by(es, order@),
            order@ == old(order)@.push(i),
            !old(order)@.contains(i),
            forall|w: usize| #[trigger] order@.contains(w) <==> (old(order)@.contains(w) || w == i),
            cur == Set::new(|q: int| done0.contains(q) || (0 <= q < k && es[q].0 == i)),
            forall|j: int| 0 <= j < n ==> #[trigger] in_degree@[j] == pending(es, cur, j as usize, m),
            next@.len() >= next0.len(),
            next@.take(next0.len() as int) == next0,
            next@.skip(next0.len() as int).no_duplicates(),
            forall|z: int| next0.len() <= z < next@.len() ==> {
                let j = #[trigger] next@[z];
                &&& j < n
                &&& pending(es, done0, j, m) > 0
                &&& pending(es, cur, j, m) == 0
                &&& !is_source(es, j)
            },
            forall|j: usize| j < n && pending(es, done0, j, m) > 0 && pending(es, cur, j, m) == 0
                ==> next@.skip(next0.len() as int).contains(j),
            forall|j: usize| j < n ==> pending(es, cur, j, m) <= pending(es, done0, j, m),
        decreases edges.len() - k,
    {
        if edges[k].0 == i {
            let j = edges[k].1;
            let ghost before = cur;
            let ghost kk = k as int;
            assert(!before.contains(kk)) by {
                if done0.contains(kk) {
                    assert(old(order)@.contains(es[kk].0));
                }
            }
            proof {
                assert forall|x: usize| x < n implies #[trigger] pending(es, before.insert(kk), x, m)
                    + (if es[kk].1 == x { 1nat } else { 0nat }) == pending(es, before, x, m) by {
                    lemma_pending_done(es, before, x, m, kk);
                }
                cur = before.insert(kk);
                assert(cur =~= Set::new(|q: int| done0.contains(q) || (0 <= q < k + 1 && es[q].0 == i)));
            }
            let d = in_degree[j];
            assert(pending(es, cur, j, m) + 1 == pending(es, before, j, m));
            in_degree.set(j, d - 1);
            if d - 1 == 0 {
                let ghost nb = next@;
                proof {
                    assert(!nb.skip(next0.len() as int).contains(j)) by {
                        if nb.skip(next0.len() as int).contains(j) {
                            let z = choose|z: int| 0 <= z < nb.skip(next0.len() as int).len() && nb.skip(next0.len() as int)[z] == j;
                            assert(nb[next0.len() + z] == j);
                        }
                    }
                }
                next.push(j);
                proof {
                    assert(next@.skip(next0.len() as int) =~= nb.skip(next0.len() as int).push(j));
                    lemma_push_contains(nb.skip(next0.len() as int), j);
                    assert(next@.take(next0.len() as int) =~= nb.take(next0.len() as int));
                    assert(es[kk].1 == j);
                }
            }
        }
        proof {
            if edges@[k as int].0 != i {
                assert(cur =~= Set::new(|q: int| done0.contains(q) || (0 <= q < k + 1 && es[q].0 == i)));
            }
        }
        k += 1;
    }
    proof {
        assert(cur =~= done1);
    }
}

/// What holds of the features placed so far: they are distinct, each comes after
/// its dependencies, and the priority order among features without dependencies.
pub open spec fn placed_ok(es: Seq<(usize, usize)>, pr: Seq<int>, order: Seq<usize>, n: nat) -> bool {
    &&& forall|a: int| 0 <= a < order.len() ==> #[trigger] order[a] < n
    &&& order.no_duplicates()
    &&& forall|a: int, k: int|
        0 <= a < order.len() && 0 <= k < es.len() && #[trigger] es[k].1 == #[trigger] order[a]
            ==> order.take(a).contains(es[k].0)
    &&& forall|a: int, b: int|
        0 <= a < b < order.len() && is_source(es, #[trigger] order[b]) ==> pr[#[trigger] order[a] as int] >= pr[order[b] as int]
    &&& forall|a: int, b: int|
        0 <= a < b < order.len() && is_source(es, #[trigger] order[a]) && is_source(es, #[trigger] order[b])
            && pr[order[a] as int] == pr[order[b] as int] ==> order[a] < order[b]
    &&& forall|a: int, s: usize|
        0 <= a < order.len() && s < n && #[trigger] is_source(es, s) && !order.contains(s) ==> pr[#[trigger] order[a] as int] >= pr[s as int]
    &&& forall|a: int, s: usize|
        0 <= a < order.len() && s < n && is_source(es, #[trigger] order[a]) && #[trigger] is_source(es, s) && !order.contains(s)
            && pr[s as int] == pr[order[a] as int] ==> order[a] < s
}

proof fn lemma_place_step(
    es: Seq<(usize, usize)>,
    pr: Seq<int>,
    order: Seq<usize>,
    i: usize,
    rest: Seq<usize>,
    m: int,
    n: nat,
)
    requires
        placed_ok(es, pr, order, n),
        i < n,
        !order.contains(i),
        pr[i as int] == m,
        forall|k: int| 0 <= k < es.len() && #[trigger] es[k].1 == i ==> order.contains(es[k].0),
        forall|s: usize| s < n && is_source(es, s) && !order.contains(s) && s != i ==> pr[s as int] < m || rest.contains(s),
        forall|s: usize| rest.contains(s) && is_source(es, s) && is_source(es, i) ==> i < s,
        forall|s: usize| rest.contains(s) ==> pr[s as int] == m,
    ensures
        placed_ok(es, pr, order.push(i), n),
{
    let o2 = order.push(i);
    lemma_push_contains(order, i);
    assert forall|a: int| 0 <= a < order.len() implies #[trigger] o2.take(a) == order.take(a) by {
        assert(o2.take(a) =~= order.take(a));
    }
    assert(o2.take(order.len() as int) =~= order);
    assert(o2.no_duplicates()) by {
        assert forall|a: int, b: int| 0 <= a < o2.len() && 0 <= b < o2.len() && a != b implies o2[a] != o2[b] by {
            if a < order.len() && b < order.len() {
                assert(order[a] != order[b]);
            } else if a < order.len() {
                assert(order.contains(order[a]));
            } else {
                assert(order.contains(order[b]));
            }
        }
    }
    assert forall|a: int, k: int|
        0 <= a < o2.len() && 0 <= k < es.len() && #[trigger] es[k].1 == #[trigger] o2[a]
            implies o2.take(a).contains(es[k].0) by {
        if a < order.len() {
            assert(order[a] == o2[a]);
        }
    }
    assert forall|a: int, b: int|
        0 <= a < b < o2.len() && is_source(es, #[trigger] o2[b]) implies pr[#[trigger] o2[a] as int] >= pr[o2[b] as int] by {
        if b < order.len() {
            assert(order[a] == o2[a] && order[b] == o2[b]);
        } else {
            assert(order[a] == o2[a]);
        }
    }
    assert forall|a: int, b: int|
        0 <= a < b < o2.len() && is_source(es, #[trigger] o2[a]) && is_source(es, #[trigger] o2[b])
            && pr[o2[a] as int] == pr[o2[b] as int] implies o2[a] < o2[b] by {
        if b < order.len() {
            assert(order[a] == o2[a] && order[b] == o2[b]);
        } else {
            assert(order[a] == o2[a]);
        }
    }
    assert forall|a: int, s: usize|
        0 <= a < o2.len() && s < n && #[trigger] is_source(es, s) && !o2.contains(s) implies pr[#[trigger] o2[a] as int] >= pr[s as int] by {
        if a < order.len() {
            assert(order[a] == o2[a]);
        } else {
            if !(pr[s as int] < m) {
                assert(rest.contains(s));
            }
        }
    }
    assert forall|a: int, s: usize|
        0 <= a < o2.len() && s < n && is_source(es, #[trigger] o2[a]) && #[trigger] is_source(es, s) && !o2.contains(s)
            && pr[s as int] == pr[o2[a] as int] implies o2[a] < s by {
        if a < order.len() {
            assert(order[a] == o2[a]);
        } else {
            assert(rest.contains(s));
        }
    }
}

/// The order in which to install `features`, as their indices: every feature after
/// the features it installs after, and among the features ready at the same time,
/// those the override order names earliest first, the rest in their given order.
/// A dependency names the last feature with that id, else the last whose id is its
/// short name; one that names no feature is left out.
#[verifier::rlimit(60)]
pub fn install_order(features: &[Feature], override_order: &[String]) -> (r: Result<Vec<usize>, Error>)
    ensures
        ({
            let ids = ids_of(features@);
            let es = edges_of(ids, deps_of(features@), features.len() as int);
            let pr = priorities(texts_of(override_order@), ids);
            &&& (r is Ok <==> acyclic(es, features.len() as nat))
            &&& match r {
                Ok(o) => install_order_ok(o@, es, pr, features.len() as nat),
                Err(e) => e@ == "circular dependency detected in features"@,
            }
        }),
{
    let n = features.len();
    let ghost nn = n as nat;
    let (edges, mut in_degree) = dependency_edges(features);
    let ghost es = edges@;
    let ghost m_es = es.len() as int;
    let ghost pr = priorities(texts_of(override_order@), ids_of(features@));
    let mut prio: Vec<usize> = Vec::new();
    while prio.len() < n
        invariant
            n == features.len(),
            pr == priorities(texts_of(override_order@), ids_of(features@)),
            prio.len() <= n,
            forall|j: int| 0 <= j < prio.len() ==> #[trigger] prio@[j] as int == pr[j],
        decreases n - prio.len(),
    {
        let p = priority_of(override_order, features[prio.len()].short_id.as_str());
        prio.push(p);
    }
    assert(done_by(es, Seq::empty()) =~= Set::<int>::empty());
    let mut eligible: Vec<usize> = Vec::new();
    let mut j: usize = 0;
    while j < n
        invariant
            j <= n,
            n == features.len(),
            es == edges@,
            m_es == es.len(),
            in_degree.len() == n,
            forall|q: int| 0 <= q < n ==> #[trigger] in_degree@[q] == pending(es, Set::empty(), q as usize, m_es),
            forall|x: int| 0 <= x < eligible.len() ==> #[trigger] eligible@[x] < j,
            forall|x: int, y: int| 0 <= x < y < eligible.len() ==> #[trigger] eligible@[x] < #[trigger] eligible@[y],
            forall|q: usize| q < j ==> (pending(es, Set::empty(), q, m_es) == 0 <==> eligible@.contains(q)),
        decreases n - j,
    {
        let ghost eb = eligible@;
        if in_degree[j] == 0 {
            eligible.push(j);
        }
        proof {
            lemma_push_contains(eb, j);
            assert forall|q: usize| q < j + 1 implies (pending(es, Set::empty(), q, m_es) == 0 <==> eligible@.contains(q)) by {
                if q < j && eligible@.contains(q) && !eb.contains(q) {
                    assert(q == j);
                }
                if eligible@.contains(j) && !eb.contains(j) {
                } else if eb.contains(j) {
                    let x = choose|x: int| 0 <= x < eb.len() && eb[x] == j;
                    assert(eb[x] < j);
                }
            }
        }
        j += 1;
    }
    proof {
        assert(eligible@.no_duplicates()) by {
            assert forall|x: int, y: int| 0 <= x < eligible.len() && 0 <= y < eligible.len() && x != y implies eligible@[x] != eligible@[y] by {
                if x < y {
                    assert(eligible@[x] < eligible@[y]);
                } else {
                    assert(eligible@[y] < eligible@[x]);
                }
            }
        }
    }
    let mut order: Vec<usize> = Vec::new();
    while eligible.len() > 0
        invariant
            n == features.len(),
            nn == n,
            es == edges@,
            m_es == es.len(),
            es == edges_of(ids_of(features@), deps_of(features@), features.len() as int),
            forall|k: int| 0 <= k < es.len() ==> #[trigger] es[k].0 < n && es[k].1 < n,
            pr == priorities(texts_of(override_order@), ids_of(features@)),
            prio.len() == n,
            forall|q: int| 0 <= q < n ==> #[trigger] prio@[q] as int == pr[q],
            in_degree.len() == n,
            forall|q: int| 0 <= q < n ==> #[trigger] in_degree@[q] == pending(es, done_by(es, order@), q as usize, m_es),
            forall|x: int| 0 <= x < eligible.len() ==> #[trigger] eligible@[x] < n,
            eligible@.no_duplicates(),
            forall|x: int| 0 <= x < eligible.len() ==> !order@.contains(#[trigger] eligible@[x]),
            forall|x: int, y: int|
                0 <= x < y < eligible.len() && is_source(es, #[trigger] eligible@[x]) && is_source(es, #[trigger] eligible@[y])
                    ==> eligible@[x] < eligible@[y],
            forall|q: usize| q < n ==> (pending(es, done_by(es, order@), q, m_es) == 0 <==> (order@.contains(q) || eligible@.contains(q))),
            placed_ok(es, pr, order@, nn),
            order.len() <= n,
        decreases n - order.len(),
    {
        let m = max_priority(&eligible, &prio);
        let (round, mut next) = split_round(&eligible, &prio, m, Ghost(es));
        let ghost order0 = order@;
        proof {
            let x = choose|x: int| 0 <= x < eligible.len() && prio@[#[trigger] eligible@[x] as int] == m;
            assert(eligible@.contains(eligible@[x]));
            if !round@.contains(eligible@[x]) {
                let z = choose|z: int| 0 <= z < next.len() && next@[z] == eligible@[x];
                assert(prio@[next@[z] as int] != m);
            }
            assert forall|z: int| 0 <= z < next.len() && is_source(es, #[trigger] next@[z]) implies prio@[next@[z] as int] < m by {
                assert(next@.contains(next@[z]));
                let x = choose|x: int| 0 <= x < eligible.len() && eligible@[x] == next@[z];
                assert(prio@[eligible@[x] as int] <= m);
            }
        }
        proof {
            assert forall|y: int| 0 <= y < round.len() implies #[trigger] round@[y] < n && !order0.contains(round@[y]) by {
                assert(round@.contains(round@[y]));
                let x = choose|x: int| 0 <= x < eligible.len() && eligible@[x] == round@[y];
                assert(eligible@[x] < n);
            }
            assert(round@.skip(0) == round@);
            assert forall|z: int| 0 <= z < next.len() implies #[trigger] next@[z] < n && !order@.contains(next@[z])
                && !round@.skip(0).contains(next@[z]) by {
                assert(next@.contains(next@[z]));
                let x = choose|x: int| 0 <= x < eligible.len() && eligible@[x] == next@[z];
                assert(eligible@[x] < n);
                if round@.contains(next@[z]) {
                    let y = choose|y: int| 0 <= y < round.len() && round@[y] == next@[z];
                    assert(prio@[round@[y] as int] == m);
                }
            }
        }
        let mut t: usize = 0;
        while t < round.len()
            invariant
                n == features.len(),
                nn == n,
                es == edges@,
                m_es == es.len(),
                forall|k: int| 0 <= k < es.len() ==> #[trigger] es[k].0 < n && es[k].1 < n,
                prio.len() == n,
                forall|q: int| 0 <= q < n ==> #[trigger] prio@[q] as int == pr[q],
                pr.len() == n,
                in_degree.len() == n,
                forall|q: int| 0 <= q < n ==> #[trigger] in_degree@[q] == pending(es, done_by(es, order@), q as usize, m_es),
                t <= round.len(),
                round.len() > 0,
                order@ == order0 + round@.take(t as int),
                forall|y: int| 0 <= y < round.len() ==> #[trigger] round@[y] < n && prio@[round@[y] as int] == m,
                round@.no_duplicates(),
                forall|x: int, y: int|
                    0 <= x < y < round.len() && is_source(es, #[trigger] round@[x]) && is_source(es, #[trigger] round@[y])
                        ==> round@[x] < round@[y],
                forall|y: int| 0 <= y < round.len() ==> !order0.contains(#[trigger] round@[y]),
                next@.no_duplicates(),
                forall|z: int| 0 <= z < next.len() ==> #[trigger] next@[z] < n,
                forall|z: int| 0 <= z < next.len() ==> !order@.contains(#[trigger] next@[z]) && !round@.skip(t as int).contains(next@[z]),
                forall|z: int| 0 <= z < next.len() && is_source(es, #[trigger] next@[z]) ==> prio@[next@[z] as int] < m,
                forall|x: int, y: int|
                    0 <= x < y < next.len() && is_source(es, #[trigger] next@[x]) && is_source(es, #[trigger] next@[y])
                        ==> next@[x] < next@[y],
                forall|q: usize| q < n ==> (pending(es, done_by(es, order@), q, m_es) == 0
                    <==> (order@.contains(q) || round@.skip(t as int).contains(q) || next@.contains(q))),
                placed_ok(es, pr, order@, nn),
            decreases round.len() - t,
        {
            let i = round[t];
            let ghost ob = order@;
            let ghost nb = next@;
            let ghost rest = round@.skip(t + 1);
            proof {
                assert(round@.skip(t as int) =~= seq![i] + rest);
                assert forall|w: usize| #[trigger] round@.skip(t as int).contains(w) <==> (w == i || rest.contains(w)) by {
                    if round@.skip(t as int).contains(w) {
                        let y = choose|y: int| 0 <= y < round@.skip(t as int).len() && round@.skip(t as int)[y] == w;
                        if y > 0 {
                            assert(rest[y - 1] == w);
                        }
                    }
                    if rest.contains(w) {
                        let y = choose|y: int| 0 <= y < rest.len() && rest[y] == w;
                        assert(round@.skip(t as int)[y + 1] == w);
                    }
                    if w == i {
                        assert(round@.skip(t as int)[0] == w);
                    }
                }
                assert(!ob.contains(i)) by {
                    if ob.contains(i) {
                        let a = choose|a: int| 0 <= a < ob.len() && ob[a] == i;
                        if a < order0.len() {
                            assert(order0.contains(i));
                        } else {
                            assert(round@[a - order0.len()] == i);
                            assert(round@[t as int] == i);
                        }
                    }
                }
                assert(!rest.contains(i)) by {
                    if rest.contains(i) {
                        let y = choose|y: int| 0 <= y < rest.len() && rest[y] == i;
                        assert(round@[t + 1 + y] == round@[t as int]);
                    }
                }
                assert(pending(es, done_by(es, ob), i, m_es) == 0);
                lemma_pending_zero(es, done_by(es, ob), i, m_es);
                assert forall|s: usize| s < n && is_source(es, s) && !ob.contains(s) && s != i implies pr[s as int] < m || rest.contains(s) by {
                    lemma_source_pending(es, done_by(es, ob), s);
                    if nb.contains(s) {
                        let z = choose|z: int| 0 <= z < nb.len() && nb[z] == s;
                        assert(prio@[nb[z] as int] < m);
                    }
                }
                assert forall|s: usize| rest.contains(s) && is_source(es, s) && is_source(es, i) implies i < s by {
                    let y = choose|y: int| 0 <= y < rest.len() && rest[y] == s;
                    assert(round@[t + 1 + y] == s);
                }
                assert forall|s: usize| rest.contains(s) implies pr[s as int] == m by {
                    let y = choose|y: int| 0 <= y < rest.len() && rest[y] == s;
                    assert(round@[t + 1 + y] == s);
                }
                lemma_place_step(es, pr, ob, i, rest, m as int, nn);
                assert forall|q: usize| q < n implies (pending(es, done_by(es, ob), q, m_es) == 0
                    <==> (ob.contains(q) || round@.skip(t as int).contains(q) || nb.contains(q))) by {}
            }
            place(i, &edges, &mut in_degree, &mut order, &mut next, Ghost(nn));
            proof {
                lemma_push_contains(ob, i);
                assert(order@ == order0 + round@.take(t + 1)) by {
                    assert(round@.take(t + 1) =~= round@.take(t as int).push(i));
                }
                let added = next@.skip(nb.len() as int);
                assert(next@ =~= nb + added) by {
                    assert(next@.take(nb.len() as int) == nb);
                }
                assert forall|w: usize| #[trigger] next@.contains(w) <==> (nb.contains(w) || added.contains(w)) by {
                    if next@.contains(w) {
                        let z = choose|z: int| 0 <= z < next@.len() && next@[z] == w;
                        if z >= nb.len() {
                            assert(added[z - nb.len()] == w);
                        } else {
                            assert(nb[z] == w);
                        }
                    }
                    if added.contains(w) {
                        let z = choose|z: int| 0 <= z < added.len() && added[z] == w;
                        assert(next@[nb.len() + z] == w);
                    }
                    if nb.contains(w) {
                        let z = choose|z: int| 0 <= z < nb.len() && nb[z] == w;
                        assert(next@[z] == w);
                    }
                }
                assert forall|z: int| 0 <= z < added.len() implies {
                    let w = #[trigger] added[z];
                    &&& w < n
                    &&& pending(es, done_by(es, ob), w, m_es) > 0
                    &&& !is_source(es, w)
                } by {
                    assert(next@[nb.len() + z] == added[z]);
                }
                assert(next@.no_duplicates()) by {
                    assert forall|x: int, y: int| 0 <= x < next.len() && 0 <= y < next.len() && x != y implies next@[x] != next@[y] by {
                        if x >= nb.len() && y >= nb.len() {
                            assert(added[x - nb.len()] != added[y - nb.len()]);
                        } else if x < nb.len() && y < nb.len() {
                            assert(nb[x] != nb[y]);
                        } else if x < nb.len() {
                            assert(next@[y] == added[y - nb.len()]);
                            assert(nb.contains(nb[x]));
                        } else {
                            assert(next@[x] == added[x - nb.len()]);
                            assert(nb.contains(nb[y]));
                        }
                    }
                }
                assert forall|z: int| 0 <= z < next.len() implies !order@.contains(#[trigger] next@[z]) && !round@.skip(t + 1).contains(next@[z]) by {
                    let w = next@[z];
                    if z < nb.len() {
                        assert(nb[z] == w);
                        assert(!round@.skip(t as int).contains(w));
                        assert(w != i);
                        assert(!rest.contains(w));
                    } else {
                        assert(added[z - nb.len()] == w);
                        assert(pending(es, done_by(es, ob), w, m_es) > 0);
                        assert(!(ob.contains(w) || round@.skip(t as int).contains(w) || nb.contains(w)));
                        assert(w != i);
                        assert(!rest.contains(w));
                    }
                    assert(round@.skip(t + 1) == rest);
                }
                assert forall|z: int| 0 <= z < next.len() && is_source(es, #[trigger] next@[z]) implies prio@[next@[z] as int] < m by {
                    if z < nb.len() {
                        assert(nb[z] == next@[z]);
                    } else {
                        assert(added[z - nb.len()] == next@[z]);
                    }
                }
                assert forall|x: int, y: int|
                    0 <= x < y < next.len() && is_source(es, #[trigger] next@[x]) && is_source(es, #[trigger] next@[y])
                        implies next@[x] < next@[y] by {
                    if y < nb.len() {
                        assert(nb[x] == next@[x] && nb[y] == next@[y]);
                    } else {
                        assert(added[y - nb.len()] == next@[y]);
                    }
                }
                assert forall|q: usize| q < n implies (pending(es, done_by(es, order@), q, m_es) == 0
                    <==> (order@.contains(q) || rest.contains(q) || next@.contains(q))) by {
                    assert(round@.skip(t + 1) == rest);
                    let old_zero = pending(es, done_by(es, ob), q, m_es) == 0;
                    let new_zero = pending(es, done_by(es, order@), q, m_es) == 0;
                    assert(old_zero <==> (ob.contains(q) || round@.skip(t as int).contains(q) || nb.contains(q)));
                    if new_zero && !old_zero {
                        assert(added.contains(q));
                    }
                    if order@.contains(q) {
                        if q == i {
                            assert(round@.skip(t as int).contains(q));
                        }
                    }
                    if next@.contains(q) && !nb.contains(q) {
                        let z = choose|z: int| 0 <= z < added.len() && added[z] == q;
                        assert(next@[nb.len() + z] == q);
                    }
                }
            }
            t += 1;
            assert(round@.skip(t as int) =~= rest);
        }
        proof {
            assert(round@.skip(round.len() as int) =~= Seq::<usize>::empty());
            lemma_distinct_bound(order@, nn);
        }
        eligible = next;
    }
    proof { lemma_distinct_bound(order@, nn); }
    if order.len() != n {
        proof {
            let placed = order@;
            assert forall|q: usize| q < n && !placed.contains(q) implies exists|k: int|
                0 <= k < es.len() && #[trigger] es[k].1 == q && !placed.contains(es[k].0) by {
                lemma_pending_zero(es, done_by(es, placed), q, m_es);
                let k = choose|k: int| 0 <= k < m_es && #[trigger] es[k].1 == q && !done_by(es, placed).contains(k);
                assert(!placed.contains(es[k].0));
            }
            if acyclic(es, nn) {
                let o = choose|o: Seq<usize>| is_permutation(o, nn) && respects(o, es);
                lemma_stuck_is_cyclic(es, nn, placed, o, nn as int);
                let q = choose|q: usize| q < n && !placed.contains(q);
                lemma_distinct_bound(o, nn);
                assert(o.contains(q));
                let b = choose|b: int| 0 <= b < o.len() && o[b] == q;
                assert(placed.contains(o[b]));
            }
        }
        return Err(Error::new("circular dependency detected in features"));
    }
    proof {
        let o = order@;
        assert forall|k: int, a: int, b: int|
            #![trigger es[k], o[a], o[b]]
            0 <= k < es.len() && 0 <= a < o.len() && 0 <= b < o.len() && o[a] == es[k].0 && o[b] == es[k].1
                implies a < b by {
            assert(o.take(b).contains(es[k].0));
            let c = choose|c: int| 0 <= c < o.take(b).len() && o.take(b)[c] == es[k].0;
            assert(o[c] == o[a]);
        }
        assert(respects(o, es));
        assert(is_permutation(o, nn));
    }
    Ok(order)
}

/// Features in the order in which they are installed.
pub struct InstallPlan {
    features: Vec<Feature>,
    order: Ghost<Seq<usize>>,
}

impl InstallPlan {
    /// The position in the given features of each planned feature.
    pub closed spec fn order(&self) -> Seq<usize> {
        self.order@
    }

    pub closed spec fn planned(&self) -> Seq<Feature> {
        self.features@
    }

    /// Orders `features` for installation (see [`install_order`]); fails where their
    /// dependencies form a cycle.
    pub fn new(features: Vec<Feature>, override_order: &[String]) -> (r: Result<InstallPlan, Error>)
        ensures
            ({
                let ids = ids_of(features@);
                let es = edges_of(ids, deps_of(features@), features.len() as int);
                let pr = priorities(texts_of(override_order@), ids);
                &&& (r is Ok <==> acyclic(es, features.len() as nat))
                &&& match r {
                    Ok(plan) => {
                        &&& install_order_ok(plan.order(), es, pr, features.len() as nat)
                        &&& plan.planned().len() == features.len()
                        &&& forall|a: int| 0 <= a < features.len() ==> #[trigger] plan.planned()[a] == features@[plan.order()[a] as int]
                    },
                    Err(e) => e@ == "circular dependency detected in features"@,
                }
            }),
    {
        let order = match install_order(features.as_slice(), override_order) {
            Ok(o) => o,
            Err(e) => return Err(e),
        };
        let n = features.len();
        let ghost orig = features@;
        let mut src = features;
        let mut rev: Vec<Option<Feature>> = Vec::new();
        while src.len() > 0
            invariant
                src.len() + rev.len() == n,
                n == orig.len(),
                src@ == orig.take(src.len() as int),
                forall|k: int| 0 <= k < rev.len() ==> #[trigger] rev@[k] == Some(orig[n - 1 - k]),
            decreases src.len(),
        {
            let ghost before = src@;
            let f = src.pop().unwrap();
            proof {
                assert(src@ =~= orig.take(src.len() as int));
                assert(f == before[before.len() - 1]);
            }
            rev.push(Some(f));
        }
        let mut out: Vec<Feature> = Vec::new();
        let mut k: usize = 0;
        while k < n
            invariant
                k <= n,
                n == orig.len(),
                rev.len() == n,
                order.len() == n,
                is_permutation(order@, n as nat),
                out.len() == k,
                forall|a: int| 0 <= a < k ==> #[trigger] out@[a] == orig[order@[a] as int],
                forall|p: int| 0 <= p < n ==> #[trigger] rev@[n - 1 - p] == if order@.take(k as int).contains(p as usize) {
                    None
                } else {
                    Some(orig[p])
                },
            decreases n - k,
        {
            let idx = order[k];
            assert(!order@.take(k as int).contains(idx)) by {
                if order@.take(k as int).contains(idx) {
                    let c = choose|c: int| 0 <= c < k && order@.take(k as int)[c] == idx;
                    assert(order@[c] == order@[k as int]);
                }
            }
            assert(rev@[n - 1 - idx as int] == Some(orig[idx as int]));
            let item = rev[n - 1 - idx].take();
            match item {
                Some(f) => {
                    out.push(f);
                },
                None => {},
            }
            proof {
                assert(order@.take(k + 1) =~= order@.take(k as int).push(idx));
                lemma_push_contains(order@.take(k as int), idx);
                assert forall|p: int| 0 <= p < n implies #[trigger] rev@[n - 1 - p] == if order@.take(k + 1).contains(p as usize) {
                    None
                } else {
                    Some(orig[p])
                } by {
                    if p != idx as int {
                        assert(n - 1 - p != n - 1 - idx);
                    }
                }
            }
            k += 1;
        }
        Ok(InstallPlan { features: out, order: Ghost(order@) })
    }

    /// The planned features, in installation order.
    pub fn features(&self) -> (r: &[Feature])
        ensures
            r@ == self.planned(),
    {
        self.features.as_slice()
    }
}

/// What `str::to_uppercase` makes of a text: each character by its Unicode uppercase mapping.
pub uninterp spec fn uppercase(s: Seq<char>) -> Seq<char>;

/// The text in upper case, by the Unicode case mapping of `str::to_uppercase`.
#[verifier::external_body]
fn to_uppercase(s: &str) -> (r: String)
    ensures
        r@ == uppercase(s@),
{
    s.to_uppercase()
}

/// Where a feature's files are copied in the image.
pub open spec fn install_dest(id: Seq<char>) -> Seq<char> {
    "/tmp/dev-container-features/"@ + id
}

/// The environment variable for an option: its name in upper case with `-` as `_`.
pub open spec fn env_name(k: Seq<char>) -> Seq<char> {
    uppercase(k).map_values(|c: char| if c == '-' { '_' } else { c })
}

/// The characters of `s` inside single quotes for a shell, each `'` written `'\''`.
pub open spec fn single_quoted(s: Seq<char>) -> Seq<char>
    decreases s.len(),
{
    if s.len() == 0 {
        seq![]
    } else {
        single_quoted(s.drop_last()) + if s.last() == '\'' {
            "'\\''"@
        } else {
            seq![s.last()]
        }
    }
}

/// An option's value as exported: a string as it is, any other value as compact JSON.
pub open spec fn option_text(v: JsonValue) -> Seq<char> {
    match v {
        JsonValue::Str(s) => s,
        _ => compact_text(v),
    }
}

pub open spec fn export_of(key: Seq<char>, v: JsonValue) -> Seq<char> {
    "export "@ + env_name(key) + "='"@ + single_quoted(option_text(v)) + "'"@
}

/// The exports of the first `m` options, joined by ` && `.
pub open spec fn exports_upto(keys: Seq<Seq<char>>, values: Seq<JsonValue>, m: int) -> Seq<char>
    decreases m,
{
    if m <= 0 {
        seq![]
    } else if m == 1 {
        export_of(keys[0], values[0])
    } else {
        exports_upto(keys, values, m - 1) + " && "@ + export_of(keys[m - 1], values[m - 1])
    }
}

/// The exports of a feature's options: one per member where they are an object.
pub open spec fn exports(options: JsonValue) -> Seq<char> {
    match options {
        JsonValue::Object(keys, values) => exports_upto(keys, values, keys.len() as int),
        _ => seq![],
    }
}

pub open spec fn copy_line(dir: Seq<char>, id: Seq<char>) -> Seq<char> {
    "COPY ./"@ + match file_name(dir) {
        Some(n) => n,
        None => seq![],
    } + "/ "@ + install_dest(id) + "/"@
}

pub open spec fn run_line(id: Seq<char>, options: JsonValue) -> Seq<char> {
    let dest = install_dest(id);
    let script = "chmod -R 0755 "@ + dest + " && cd "@ + dest + " && chmod +x ./install.sh && ./install.sh"@;
    let ex = exports(options);
    if ex.len() == 0 {
        "RUN "@ + script
    } else {
        "RUN "@ + ex + " && "@ + script
    }
}

/// `lines[..m]`, each after a line break.
pub open spec fn prefixed(lines: Seq<Seq<char>>, m: int) -> Seq<char>
    decreases m,
{
    if m <= 0 {
        seq![]
    } else {
        prefixed(lines, m - 1) + "\n"@ + lines[m - 1]
    }
}

/// The lines that install a feature: copy its files, run its install script with
/// its options exported, and set its environment in the order of the variable names.
pub open spec fn feature_lines(f: Feature) -> Seq<Seq<char>> {
    let env = f.container_env.listing();
    seq![copy_line(f.dir@, f.short_id@), run_line(f.short_id@, f.options@)]
        + Seq::new(env.len(), |i: int| "ENV "@ + env[i].0 + "="@ + env[i].1)
}

pub open spec fn features_text(fs: Seq<Feature>, n: int) -> Seq<char>
    decreases n,
{
    if n <= 0 {
        seq![]
    } else {
        features_text(fs, n - 1) + prefixed(feature_lines(fs[n - 1]), feature_lines(fs[n - 1]).len() as int)
    }
}

/// A Dockerfile that builds on `base` and installs the features as root.
pub open spec fn dockerfile_text(base: Seq<char>, fs: Seq<Feature>) -> Seq<char> {
    base + "\nUSER root"@ + features_text(fs, fs.len() as int)
}

fn push_single_quoted(out: &mut Vec<char>, s: &str)
    ensures
        final(out)@ == old(out)@ + single_quoted(s@),
{
    let v = chars_of(s);
    let mut i: usize = 0;
    while i < v.len()
        invariant
            i <= v.len(),
            v@ == s@,
            out@ == old(out)@ + single_quoted(v@.take(i as int)),
        decreases v.len() - i,
    {
        assert(v@.take(i + 1).drop_last() =~= v@.take(i as int));
        if v[i] == '\'' {
            push_str(out, "'\\''");
        } else {
            out.push(v[i]);
        }
        assert(out@ =~= old(out)@ + single_quoted(v@.take(i + 1)));
        i += 1;
    }
    assert(v@.take(v.len() as int) =~= v@);
}

fn push_export(out: &mut Vec<char>, key: &str, value: &crate::devcontainer::jsonc::model::Value)
    ensures
        final(out)@ == old(out)@ + export_of(key@, value@),
{
    push_str(out, "export ");
    let upper = to_uppercase(key);
    let u = chars_of(upper.as_str());
    let ghost start = out@;
    let mut i: usize = 0;
    while i < u.len()
        invariant
            i <= u.len(),
            u@ == uppercase(key@),
            out@ == start + u@.take(i as int).map_values(|c: char| if c == '-' { '_' } else { c }),
        decreases u.len() - i,
    {
        if u[i] == '-' {
            out.push('_');
        } else {
            out.push(u[i]);
        }
        assert(out@ =~= start + u@.take(i + 1).map_values(|c: char| if c == '-' { '_' } else { c }));
        i += 1;
    }
    assert(u@.take(u.len() as int) =~= u@);
    push_str(out, "='");
    match value.as_str() {
        Some(s) => push_single_quoted(out, s),
        None => {
            let text = value.to_json_compact();
            push_single_quoted(out, text.as_str());
        },
    }
    push_str(out, "'");
    assert(final(out)@ =~= old(out)@ + export_of(key@, value@));
}

fn exports_of(options: &crate::devcontainer::jsonc::model::Value) -> (ex: Vec<char>)
    ensures
        ex@ == exports(options@),
{
    let mut ex: Vec<char> = Vec::new();
    match options.as_object() {
        Some(members) => {
            let ghost keys = match options@ { JsonValue::Object(k, _) => k, _ => seq![] };
            let ghost values = match options@ { JsonValue::Object(_, v) => v, _ => seq![] };
            let mut m: usize = 0;
            while m < members.len()
                invariant
                    m <= members.len(),
                    members.len() == keys.len(),
                    forall|i: int| #![trigger members@[i]] 0 <= i < members.len() ==> members@[i].0@ == keys[i] && members@[i].1@ == values[i],
                    ex@ == exports_upto(keys, values, m as int),
                decreases members.len() - m,
            {
                if m > 0 {
                    push_str(&mut ex, " && ");
                }
                push_export(&mut ex, members[m].0.as_str(), &members[m].1);
                proof {
                    let _ = members@[m as int];
                    if m == 0 {
                        assert(ex@ =~= exports_upto(keys, values, 1));
                    } else {
                        assert(ex@ =~= exports_upto(keys, values, m + 1));
                    }
                }
                m += 1;
            }
        },
        None => {},
    }
    ex
}

fn push_copy_line(out: &mut Vec<char>, f: &Feature)
    ensures
        final(out)@ == old(out)@ + "\n"@ + copy_line(f.dir@, f.short_id@),
{
    let dir = chars_of(f.dir.as_str());
    let name = match file_name_exec(&dir) {
        Some(c) => c,
        None => Vec::new(),
    };
    push_str(out, "\n");
    push_str(out, "COPY ./");
    push_all(out, name.as_slice());
    push_str(out, "/ ");
    push_str(out, "/tmp/dev-container-features/");
    push_str(out, f.short_id.as_str());
    push_str(out, "/");
    assert(final(out)@ =~= old(out)@ + "\n"@ + copy_line(f.dir@, f.short_id@));
}

fn push_run_line(out: &mut Vec<char>, f: &Feature)
    ensures
        final(out)@ == old(out)@ + "\n"@ + run_line(f.short_id@, f.options@),
{
    let ex = exports_of(&f.options);
    let mut dest: Vec<char> = Vec::new();
    push_str(&mut dest, "/tmp/dev-container-features/");
    push_str(&mut dest, f.short_id.as_str());
    assert(dest@ =~= install_dest(f.short_id@));
    push_str(out, "\n");
    push_str(out, "RUN ");
    if ex.len() > 0 {
        push_all(out, ex.as_slice());
        push_str(out, " && ");
    }
    push_str(out, "chmod -R 0755 ");
    push_all(out, dest.as_slice());
    push_str(out, " && cd ");
    push_all(out, dest.as_slice());
    push_str(out, " && chmod +x ./install.sh && ./install.sh");
    assert(final(out)@ =~= old(out)@ + "\n"@ + run_line(f.short_id@, f.options@));
}

fn push_feature(out: &mut Vec<char>, f: &Feature)
    ensures
        final(out)@ == old(out)@ + prefixed(feature_lines(*f), feature_lines(*f).len() as int),
{
    let ghost lines = feature_lines(*f);
    assert(lines[0] == copy_line(f.dir@, f.short_id@));
    assert(lines[1] == run_line(f.short_id@, f.options@));
    push_copy_line(out, f);
    assert(prefixed(lines, 0) =~= Seq::<char>::empty());
    assert(out@ =~= old(out)@ + prefixed(lines, 1));
    push_run_line(out, f);
    assert(out@ =~= old(out)@ + prefixed(lines, 2));
    let env = f.container_env.entries();
    let mut k: usize = 0;
    while k < env.len()
        invariant
            k <= env.len(),
            lines == feature_lines(*f),
            env.len() == f.container_env.listing().len(),
            forall|i: int| 0 <= i < env.len() ==> (#[trigger] env@[i].0@, env@[i].1@) == f.container_env.listing()[i],
            out@ == old(out)@ + prefixed(lines, 2 + k),
        decreases env.len() - k,
    {
        push_str(out, "\n");
        push_str(out, "ENV ");
        push_str(out, env[k].0.as_str());
        push_str(out, "=");
        push_str(out, env[k].1.as_str());
        proof {
            let _ = env@[k as int];
            assert(lines[2 + k] == "ENV "@ + env@[k as int].0@ + "="@ + env@[k as int].1@);
        }
        assert(out@ =~= old(out)@ + prefixed(lines, 2 + k + 1));
        k += 1;
    }
}

/// A Dockerfile that builds on `base_content` and installs the planned features as
/// root, in their order.
pub fn feature_dockerfile(base_content: &str, plan: &InstallPlan) -> (r: String)
    ensures
        r@ == dockerfile_text(base_content@, plan.planned()),
{
    let fs = plan.features();
    let mut out = chars_of(base_content);
    push_str(&mut out, "\nUSER root");
    let mut i: usize = 0;
    while i < fs.len()
        invariant
            i <= fs.len(),
            fs@ == plan.planned(),
            out@ == base_content@ + "\nUSER root"@ + features_text(fs@, i as int),
        decreases fs.len() - i,
    {
        push_feature(&mut out, &fs[i]);
        assert(out@ =~= base_content@ + "\nUSER root"@ + features_text(fs@, i + 1));
        i += 1;
    }
    string_of(out.as_slice())
}

} // verus!
