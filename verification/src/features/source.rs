use vstd::prelude::*;

use crate::error::Error;
use crate::text::{chars_of, push_str, starts_at, string_of, sub_chars};

verus! {

/// Where a feature comes from.
pub enum FeatureSource {
    /// A directory on the host, by its path.
    Local(String),
    /// A tarball at a URL.
    Tarball(String),
    /// A reference into an OCI registry.
    Oci { registry: String, path: String, version: String },
}

pub open spec fn has_prefix(s: Seq<char>, p: Seq<char>) -> bool {
    p.len() <= s.len() && s.take(p.len() as int) == p
}

/// Index of the last `c` in `s`.
pub open spec fn last_index_of(s: Seq<char>, c: char, n: int) -> Option<int>
    decreases n,
{
    if n <= 0 {
        None
    } else if s[n - 1] == c {
        Some(n - 1)
    } else {
        last_index_of(s, c, n - 1)
    }
}

/// Index of the first `c` in `s` from `i` on.
pub open spec fn first_index_of(s: Seq<char>, c: char, i: int) -> Option<int>
    decreases s.len() - i,
{
    if i < 0 || i >= s.len() {
        None
    } else if s[i] == c {
        Some(i)
    } else {
        first_index_of(s, c, i + 1)
    }
}

pub proof fn lemma_last_index_of(s: Seq<char>, c: char, n: int)
    requires
        n <= s.len(),
    ensures
        last_index_of(s, c, n) matches Some(i) ==> 0 <= i < n && s[i] == c,
        last_index_of(s, c, n) is None ==> forall|k: int| 0 <= k < n ==> s[k] != c,
    decreases n,
{
    if n > 0 {
        lemma_last_index_of(s, c, n - 1);
    }
}

pub proof fn lemma_first_index_of(s: Seq<char>, c: char, i: int)
    requires
        0 <= i,
    ensures
        first_index_of(s, c, i) matches Some(k) ==> i <= k < s.len() && s[k] == c,
        first_index_of(s, c, i) is None ==> forall|k: int| i <= k < s.len() ==> s[k] != c,
    decreases s.len() - i,
{
    if i < s.len() {
        lemma_first_index_of(s, c, i + 1);
    }
}

/// The last index of `c` in `v`.
pub fn rfind_char(v: &Vec<char>, c: char) -> (r: Option<usize>)
    ensures
        match r {
            Some(i) => last_index_of(v@, c, v.len() as int) == Some(i as int),
            None => last_index_of(v@, c, v.len() as int) is None,
        },
{
    let mut n = v.len();
    while n > 0
        invariant
            n <= v.len(),
            last_index_of(v@, c, v.len() as int) == last_index_of(v@, c, n as int),
        decreases n,
    {
        if v[n - 1] == c {
            return Some(n - 1);
        }
        n -= 1;
    }
    None
}

/// The first index of `c` in `v` from `i` on.
pub fn find_char(v: &Vec<char>, c: char, i: usize) -> (r: Option<usize>)
    ensures
        match r {
            Some(k) => first_index_of(v@, c, i as int) == Some(k as int),
            None => first_index_of(v@, c, i as int) is None,
        },
{
    let mut k = i;
    while k < v.len()
        invariant
            i <= k,
            first_index_of(v@, c, i as int) == first_index_of(v@, c, k as int),
        decreases v.len() - k,
    {
        if v[k] == c {
            return Some(k);
        }
        k += 1;
    }
    None
}

/// What a feature id means, or `None` where it is an OCI reference without a `/`.
pub open spec fn source_of(id: Seq<char>) -> Option<(Seq<char>, Seq<char>, Seq<char>, nat)> {
    if has_prefix(id, "./"@) || has_prefix(id, "/"@) {
        Some((id, Seq::empty(), Seq::empty(), 0))
    } else if has_prefix(id, "https://"@) || has_prefix(id, "http://"@) {
        Some((id, Seq::empty(), Seq::empty(), 1))
    } else {
        let (without, version) = match last_index_of(id, ':', id.len() as int) {
            Some(c) => (id.take(c), id.skip(c + 1)),
            None => (id, "latest"@),
        };
        match first_index_of(without, '/', 0) {
            Some(s) => Some((without.take(s), without.skip(s + 1), version, 2)),
            None => None,
        }
    }
}

impl FeatureSource {
    /// Reads a feature id: a local path (`./…` or `/…`), a tarball URL, or an OCI
    /// reference `registry/path[:version]` (version `latest` where none is given).
    pub fn parse(id: &str) -> (r: Result<FeatureSource, Error>)
        ensures
            match source_of(id@) {
                Some((a, b, c, kind)) => match r {
                    Ok(FeatureSource::Local(p)) => kind == 0 && p@ == a,
                    Ok(FeatureSource::Tarball(u)) => kind == 1 && u@ == a,
                    Ok(FeatureSource::Oci { registry, path, version }) => kind == 2 && registry@ == a
                        && path@ == b && version@ == c,
                    Err(_) => false,
                },
                None => r matches Err(e) && e@ == "invalid OCI feature ref: "@ + id@,
            },
    {
        let v = chars_of(id);
        let dot_slash = chars_of("./");
        let slash = chars_of("/");
        let https = chars_of("https://");
        let http = chars_of("http://");
        proof {
            assert(v@.subrange(0, 2) =~= v@.take(2));
            assert(v@.subrange(0, 1) =~= v@.take(1));
            assert(v@.subrange(0, 8) =~= v@.take(8));
            assert(v@.subrange(0, 7) =~= v@.take(7));
        }
        if starts_at(v.as_slice(), 0, dot_slash.as_slice()) || starts_at(v.as_slice(), 0, slash.as_slice()) {
            return Ok(FeatureSource::Local(id.to_owned()));
        }
        if starts_at(v.as_slice(), 0, https.as_slice()) || starts_at(v.as_slice(), 0, http.as_slice()) {
            return Ok(FeatureSource::Tarball(id.to_owned()));
        }
        let (without, version) = match rfind_char(&v, ':') {
            Some(c) => {
                proof { lemma_last_index_of(v@, ':', v.len() as int); }
                let w = sub_chars(&v, 0, c);
                let ver = sub_chars(&v, c + 1, v.len());
                assert(w@ =~= v@.take(c as int));
                assert(ver@ =~= v@.skip(c + 1));
                (w, string_of(ver.as_slice()))
            },
            None => {
                assert(v@.subrange(0, v.len() as int) =~= v@);
                (sub_chars(&v, 0, v.len()), "latest".to_owned())
            },
        };
        match find_char(&without, '/', 0) {
            Some(s) => {
                proof { lemma_first_index_of(without@, '/', 0); }
                let registry = sub_chars(&without, 0, s);
                let path = sub_chars(&without, s + 1, without.len());
                assert(registry@ =~= without@.take(s as int));
                assert(path@ =~= without@.skip(s + 1));
                Ok(FeatureSource::Oci {
                    registry: string_of(registry.as_slice()),
                    path: string_of(path.as_slice()),
                    version,
                })
            },
            None => {
                let mut msg: Vec<char> = Vec::new();
                push_str(&mut msg, "invalid OCI feature ref: ");
                push_str(&mut msg, id);
                proof { reveal_strlit(""); }
                Err(Error::from_chars(&msg))
            },
        }
    }
}

impl FeatureSource {
    /// The source of the feature `id` of a configuration in `devcontainer_dir`: as
    /// [`FeatureSource::parse`] reads it, a relative local path taken from that folder.
    pub fn resolve(id: &str, devcontainer_dir: &str) -> (r: Result<FeatureSource, Error>)
        ensures
            match source_of(id@) {
                Some((a, b, c, kind)) => match r {
                    Ok(FeatureSource::Local(p)) => kind == 0 && p@ == (if has_prefix(a, "/"@) {
                        a
                    } else {
                        crate::devcontainer::docker_args::join_path(devcontainer_dir@, a)
                    }),
                    Ok(FeatureSource::Tarball(u)) => kind == 1 && u@ == a,
                    Ok(FeatureSource::Oci { registry, path, version }) => kind == 2 && registry@ == a
                        && path@ == b && version@ == c,
                    Err(_) => false,
                },
                None => r matches Err(e) && e@ == "invalid OCI feature ref: "@ + id@,
            },
    {
        match FeatureSource::parse(id) {
            Ok(FeatureSource::Local(p)) => {
                let v = chars_of(p.as_str());
                proof {
                    reveal_strlit("/");
                    assert(v@.take(1) =~= v@.subrange(0, 1));
                }
                if v.len() > 0 && v[0] == '/' {
                    proof {
                        assert(has_prefix(p@, "/"@)) by {
                            assert(p@.take(1) =~= "/"@);
                        }
                    }
                    Ok(FeatureSource::Local(p))
                } else {
                    proof {
                        if has_prefix(p@, "/"@) {
                            assert(p@[0] == "/"@[0]);
                        }
                    }
                    Ok(FeatureSource::Local(crate::devcontainer::docker_args::join_path_exec(devcontainer_dir, p.as_str())))
                }
            },
            other => other,
        }
    }
}

} // verus!
