use vstd::prelude::*;

use crate::devcontainer::jsonc::model::{JsonValue, Value};
use crate::lifecycle::{ascending, lemma_ascending_unique, lemma_text_lt_transitive};
use crate::text::{lemma_text_lt_total, text_less, text_lt};

verus! {

/// The features of a configuration as references and option values.
pub open spec fn feature_entries(s: Seq<(String, Value)>) -> Seq<(Seq<char>, JsonValue)> {
    Seq::new(s.len(), |i: int| (s[i].0@, s[i].1@))
}

/// The references of the features `s`.
pub open spec fn entry_refs(s: Seq<(Seq<char>, JsonValue)>) -> Seq<Seq<char>> {
    Seq::new(s.len(), |i: int| s[i].0)
}

/// No reference occurs twice among `s`.
pub open spec fn distinct_refs(s: Seq<(Seq<char>, JsonValue)>) -> bool {
    forall|a: int, b: int| 0 <= a < b < s.len() ==> #[trigger] s[a].0 != #[trigger] s[b].0
}

/// `r` holds the features of `s`, each once, by reference in the order of `str`.
pub open spec fn in_fetch_order(s: Seq<(Seq<char>, JsonValue)>, r: Seq<(Seq<char>, JsonValue)>) -> bool {
    &&& r.len() == s.len()
    &&& ascending(entry_refs(r))
    &&& forall|x: (Seq<char>, JsonValue)| #[trigger] r.contains(x) == s.contains(x)
}

/// The features of a configuration in the order in which they are fetched and
/// numbered: by reference, in the order of `str`.
pub fn fetch_order(features: &[(String, Value)]) -> (r: Vec<(String, Value)>)
    requires
        distinct_refs(feature_entries(features@)),
    ensures
        in_fetch_order(feature_entries(features@), feature_entries(r@)),
{
    let ghost src = feature_entries(features@);
    let mut out: Vec<(String, Value)> = Vec::new();
    let mut i: usize = 0;
    while i < features.len()
        invariant
            i <= features.len(),
            src == feature_entries(features@),
            distinct_refs(src),
            out.len() == i,
            ascending(entry_refs(feature_entries(out@))),
            forall|x: (Seq<char>, JsonValue)| #[trigger] feature_entries(out@).contains(x) == src.subrange(0, i as int).contains(x),
        decreases features.len() - i,
    {
        let ghost before = feature_entries(out@);
        let key = &features[i].0;
        let mut p: usize = 0;
        while p < out.len() && !text_less(key.as_str(), out[p].0.as_str())
            invariant
                p <= out.len(),
                before == feature_entries(out@),
                forall|q: int| 0 <= q < p ==> !text_lt(key@, #[trigger] before[q].0),
            decreases out.len() - p,
        {
            p += 1;
        }
        let entry = (features[i].0.clone(), features[i].1.clone());
        let ghost e = (entry.0@, entry.1@);
        assert(e == src[i as int]);
        out.insert(p, entry);
        proof {
            let after = feature_entries(out@);
            assert(after =~= before.insert(p as int, e));
            // every earlier feature has another reference than this one
            assert forall|q: int| 0 <= q < before.len() implies #[trigger] before[q].0 != e.0 by {
                assert(src.subrange(0, i as int).contains(before[q])) by {
                    assert(before.contains(before[q]));
                }
                let j = choose|j: int| 0 <= j < i && #[trigger] src.subrange(0, i as int)[j] == before[q];
                assert(src[j] == before[q]);
            }
            let ks = entry_refs(after);
            assert forall|a: int, b: int| 0 <= a < b < ks.len() implies text_lt(#[trigger] ks[a], #[trigger] ks[b]) by {
                let kb = entry_refs(before);
                if b < p {
                    assert(text_lt(kb[a], kb[b]));
                } else if a > p {
                    assert(text_lt(kb[a - 1], kb[b - 1]));
                } else if a < p && b == p {
                    assert(!text_lt(e.0, before[a].0));
                    lemma_text_lt_total(e.0, before[a].0);
                } else if a < p && b > p {
                    assert(text_lt(kb[a], kb[b - 1]));
                } else if a == p && b == p + 1 {
                    assert(text_lt(e.0, before[p as int].0));
                } else {
                    assert(a == p && b > p + 1);
                    assert(text_lt(e.0, before[p as int].0));
                    assert(text_lt(kb[p as int], kb[b - 1]));
                    lemma_text_lt_transitive(e.0, kb[p as int], kb[b - 1]);
                }
            }
            assert forall|x: (Seq<char>, JsonValue)| #[trigger] after.contains(x) == src.subrange(0, i + 1).contains(x) by {
                assert(src.subrange(0, i + 1) =~= src.subrange(0, i as int).push(e));
                if after.contains(x) {
                    let j = choose|j: int| 0 <= j < after.len() && #[trigger] after[j] == x;
                    if j == p {
                        assert(src.subrange(0, i + 1)[i as int] == x);
                    } else {
                        let k = if j < p { j } else { j - 1 };
                        assert(before[k] == x);
                        assert(before.contains(x));
                        assert(src.subrange(0, i as int).contains(x));
                        let m = choose|m: int| 0 <= m < i && #[trigger] src.subrange(0, i as int)[m] == x;
                        assert(src.subrange(0, i + 1)[m] == x);
                    }
                }
                if src.subrange(0, i + 1).contains(x) {
                    if x == e {
                        assert(after[p as int] == x);
                    } else {
                        assert(src.subrange(0, i as int).contains(x)) by {
                            let j = choose|j: int| 0 <= j < i + 1 && #[trigger] src.subrange(0, i + 1)[j] == x;
                            assert(j < i);
                            assert(src.subrange(0, i as int)[j] == x);
                        }
                        assert(before.contains(x));
                        let j = choose|j: int| 0 <= j < before.len() && #[trigger] before[j] == x;
                        if j < p {
                            assert(after[j] == x);
                        } else {
                            assert(after[j + 1] == x);
                        }
                    }
                }
            }
        }
        i += 1;
    }
    assert(src.subrange(0, i as int) =~= src);
    out
}

/// The order in which features are fetched is fixed by the features alone: two
/// listings of the same features, each by reference in the order of `str`, are the same.
pub proof fn law_fetch_order_is_unique(
    s: Seq<(Seq<char>, JsonValue)>,
    r1: Seq<(Seq<char>, JsonValue)>,
    r2: Seq<(Seq<char>, JsonValue)>,
)
    requires
        distinct_refs(s),
        in_fetch_order(s, r1),
        in_fetch_order(s, r2),
    ensures
        r1 == r2,
{
    let k1 = entry_refs(r1);
    let k2 = entry_refs(r2);
    assert forall|x: Seq<char>| #[trigger] k1.contains(x) == k2.contains(x) by {
        if k1.contains(x) {
            let i = choose|i: int| 0 <= i < k1.len() && k1[i] == x;
            assert(r1.contains(r1[i]));
            assert(s.contains(r1[i]));
            assert(r2.contains(r1[i]));
            let j = choose|j: int| 0 <= j < r2.len() && r2[j] == r1[i];
            assert(k2[j] == x);
        }
        if k2.contains(x) {
            let i = choose|i: int| 0 <= i < k2.len() && k2[i] == x;
            assert(r2.contains(r2[i]));
            assert(s.contains(r2[i]));
            assert(r1.contains(r2[i]));
            let j = choose|j: int| 0 <= j < r1.len() && r1[j] == r2[i];
            assert(k1[j] == x);
        }
    }
    lemma_ascending_unique(k1, k2);
    assert forall|i: int| 0 <= i < r1.len() implies r1[i] == r2[i] by {
        assert(k1[i] == k2[i]);
        assert(r1.contains(r1[i]));
        assert(r2.contains(r2[i]));
        assert(s.contains(r1[i]));
        assert(s.contains(r2[i]));
        let a = choose|a: int| 0 <= a < s.len() && s[a] == r1[i];
        let b = choose|b: int| 0 <= b < s.len() && s[b] == r2[i];
        if a != b {
            if a < b {
                assert(s[a].0 != s[b].0);
            } else {
                assert(s[b].0 != s[a].0);
            }
        }
    }
    assert(r1 =~= r2);
}

} // verus!
