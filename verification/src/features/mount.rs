use vstd::prelude::*;

use crate::devcontainer::jsonc::access::member;
use crate::devcontainer::jsonc::model::{JsonValue, Value};
use crate::devcontainer::metadata::{field_target, mount_target_of, target_from};
use crate::devcontainer::shell::{is_white, trim, white_prefix, white_suffix};
use crate::features::source::first_index_of;
use crate::text::{push_str, string_of};

verus! {

/// A mount that a feature asks for.
#[derive(Debug, PartialEq)]
pub struct FeatureMount {
    pub mount_type: String,
    pub source: Option<String>,
    pub target: String,
}

pub open spec fn string_member(v: JsonValue, key: Seq<char>) -> Option<Seq<char>> {
    match member(v, key) {
        Some(JsonValue::Str(s)) => Some(s),
        _ => None,
    }
}

/// The `--mount` argument for a mount.
pub open spec fn mount_arg(mount_type: Seq<char>, source: Option<Seq<char>>, target: Seq<char>) -> Seq<char> {
    "type="@ + mount_type + match source {
        Some(s) => ",src="@ + s,
        None => Seq::empty(),
    } + ",dst="@ + target
}

impl FeatureMount {
    /// The mount described by an object with `type`, `target` and an optional `source`.
    pub fn from_value(value: &Value) -> (r: Option<FeatureMount>)
        ensures
            ({
                let v = value@;
                let src_ok = match member(v, "source"@) {
                    None => true,
                    Some(JsonValue::Null) => true,
                    Some(JsonValue::Str(_)) => true,
                    _ => false,
                };
                if string_member(v, "type"@) is Some && string_member(v, "target"@) is Some && src_ok {
                    r matches Some(m) && m.mount_type@ == string_member(v, "type"@)->0 && m.target@
                        == string_member(v, "target"@)->0 && match m.source {
                        Some(s) => string_member(v, "source"@) == Some(s@),
                        None => string_member(v, "source"@) is None,
                    }
                } else {
                    r is None
                }
            }),
    {
        let mount_type = match value.get("type") {
            Some(t) => match t.as_str() {
                Some(s) => s.to_owned(),
                None => return None,
            },
            None => return None,
        };
        let source = match value.get("source") {
            None => None,
            Some(Value::Null) => None,
            Some(v) => match v.as_str() {
                Some(s) => Some(s.to_owned()),
                None => return None,
            },
        };
        let target = match value.get("target") {
            Some(t) => match t.as_str() {
                Some(s) => s.to_owned(),
                None => return None,
            },
            None => return None,
        };
        Some(FeatureMount { mount_type, source, target })
    }

    /// The `--mount` argument: `type=…[,src=…],dst=…`.
    pub fn to_docker_arg(&self) -> (r: String)
        ensures
            r@ == mount_arg(
                self.mount_type@,
                match self.source {
                    Some(s) => Some(s@),
                    None => None,
                },
                self.target@,
            ),
    {
        let mut out: Vec<char> = Vec::new();
        push_str(&mut out, "type=");
        push_str(&mut out, self.mount_type.as_str());
        if let Some(s) = &self.source {
            push_str(&mut out, ",src=");
            push_str(&mut out, s.as_str());
        }
        push_str(&mut out, ",dst=");
        push_str(&mut out, self.target.as_str());
        proof { reveal_strlit(""); }
        assert(out@ =~= mount_arg(
            self.mount_type@,
            match self.source {
                Some(s) => Some(s@),
                None => None,
            },
            self.target@,
        ));
        string_of(out.as_slice())
    }
}

/// Whether `s` holds no comma.
pub open spec fn comma_free(s: Seq<char>) -> bool {
    forall|k: int| 0 <= k < s.len() ==> s[k] != ','
}

proof fn lemma_first_at(s: Seq<char>, c: char, i: int, k: int)
    requires
        0 <= i <= k < s.len(),
        s[k] == c,
        forall|j: int| i <= j < k ==> s[j] != c,
    ensures
        first_index_of(s, c, i) == Some(k),
    decreases k - i,
{
    if i < k {
        lemma_first_at(s, c, i + 1, k);
    }
}

proof fn lemma_none_from(s: Seq<char>, c: char, i: int)
    requires
        0 <= i,
        forall|j: int| i <= j < s.len() ==> s[j] != c,
    ensures
        first_index_of(s, c, i) is None,
    decreases s.len() - i,
{
    if i < s.len() {
        lemma_none_from(s, c, i + 1);
    }
}

/// A field `key=value` whose key is not `target`, `dst` or `destination` names no target.
proof fn lemma_field_key(f: Seq<char>, key: Seq<char>)
    requires
        f.len() > key.len() > 0,
        f.take(key.len() as int) == key,
        f[key.len() as int] == '=',
        forall|j: int| 0 <= j < key.len() ==> key[j] != '=' && !is_white(key[j]),
    ensures
        first_index_of(f, '=', 0) == Some(key.len() as int),
        trim(f.take(key.len() as int)) == key,
{
    assert forall|j: int| 0 <= j < key.len() implies f[j] != '=' by {
        assert(f.take(key.len() as int)[j] == f[j]);
    }
    lemma_first_at(f, '=', 0, key.len() as int);
    assert(white_prefix(key, 0) == 0);
    assert(white_suffix(key, key.len() as int) == key.len());
    assert(key.subrange(0, key.len() as int) =~= key);
}

/// The argument a feature's mount becomes names its target again: the target that
/// `mount_target` reads from `to_docker_arg`'s text is the mount's target, where none of
/// type, source and target holds a comma.
pub proof fn law_mount_arg_names_its_target(mount_type: Seq<char>, source: Option<Seq<char>>, target: Seq<char>)
    requires
        comma_free(mount_type),
        source matches Some(x) ==> comma_free(x),
        comma_free(target),
    ensures
        mount_target_of(mount_arg(mount_type, source, target)) == Some(target),
{
    reveal_strlit("type=");
    reveal_strlit(",src=");
    reveal_strlit(",dst=");
    reveal_strlit("type");
    reveal_strlit("src");
    reveal_strlit("dst");
    reveal_strlit("target");
    reveal_strlit("destination");
    reveal_strlit("src=");
    reveal_strlit("dst=");
    let m = mount_arg(mount_type, source, target);
    let a = "type="@ + mount_type;
    let mid: Seq<char> = match source {
        Some(x) => ",src="@ + x,
        None => Seq::empty(),
    };
    let tail = ",dst="@ + target;
    assert(m =~= a + mid + tail);
    let p1 = a.len() as int;
    // the first field: `type=...`
    assert forall|j: int| 0 <= j < p1 implies m[j] != ',' by {
        assert(m[j] == a[j]);
        if j >= 5 {
            assert(a[j] == mount_type[j - 5]);
        }
    }
    assert(m[p1] == ',');
    lemma_first_at(m, ',', 0, p1);
    let f1 = m.subrange(0, p1);
    assert(f1 =~= a);
    assert(f1.take(4) =~= "type"@);
    lemma_field_key(f1, "type"@);
    assert(field_target(f1) is None);
    let p2 = p1 + mid.len();
    if let Some(x) = source {
        // the second field: `src=...`
        assert forall|j: int| p1 + 1 <= j < p2 implies m[j] != ',' by {
            assert(m[j] == mid[j - p1]);
            if j - p1 >= 5 {
                assert(mid[j - p1] == x[j - p1 - 5]);
            }
        }
        assert(m[p2] == ',');
        lemma_first_at(m, ',', p1 + 1, p2);
        let f2 = m.subrange(p1 + 1, p2);
        assert forall|j: int| 0 <= j < f2.len() implies f2[j] == ("src="@ + x)[j] by {
            assert(m[p1 + 1 + j] == mid[j + 1]);
        }
        assert(f2 =~= "src="@ + x);
        assert(f2.take(3) =~= "src"@);
        lemma_field_key(f2, "src"@);
        assert(field_target(f2) is None);
    }
    // the last field: `dst=target`
    let p3 = p2 + 1;
    assert forall|j: int| p3 <= j < m.len() implies m[j] != ',' by {
        assert(m[j] == tail[j - p2]);
        if j - p2 >= 5 {
            assert(tail[j - p2] == target[j - p2 - 5]);
        }
    }
    lemma_none_from(m, ',', p3);
    let f3 = m.subrange(p3, m.len() as int);
    assert(m.len() == p2 + tail.len());
    assert forall|j: int| 0 <= j < f3.len() implies f3[j] == ("dst="@ + target)[j] by {
        assert(m[p3 + j] == tail[j + 1]);
    }
    assert(f3 =~= "dst="@ + target);
    assert(f3.take(3) =~= "dst"@);
    lemma_field_key(f3, "dst"@);
    assert(f3.skip(4) =~= target);
    assert(field_target(f3) == Some(target));
    assert(target_from(m, p3) == Some(target));
    if source is Some {
        assert(target_from(m, p1 + 1) == Some(target));
    }
}

} // verus!
