use vstd::prelude::*;

use crate::devcontainer::jsonc::model::JsonValue;
use crate::features::plan::{env_name, export_of, exports, exports_upto, install_dest, option_text, run_line, single_quoted};

verus! {

/// `t` stands in `s` at `p`.
pub open spec fn occurs_at(s: Seq<char>, t: Seq<char>, p: int) -> bool {
    0 <= p && p + t.len() <= s.len() && s.subrange(p, p + t.len()) == t
}

/// The shell line that exports option `key` with value `v` to the install script.
pub open spec fn option_export(key: Seq<char>, v: JsonValue) -> Seq<char> {
    "export "@ + env_name(key) + "='"@ + single_quoted(option_text(v)) + "'"@
}

/// The exports of the first `k` options begin the exports of the first `m`.
proof fn lemma_exports_prefix(keys: Seq<Seq<char>>, values: Seq<JsonValue>, k: int, m: int)
    requires
        1 <= k <= m,
    ensures
        exports_upto(keys, values, k).len() <= exports_upto(keys, values, m).len(),
        exports_upto(keys, values, m).subrange(0, exports_upto(keys, values, k).len() as int) == exports_upto(keys, values, k),
    decreases m,
{
    if k < m {
        lemma_exports_prefix(keys, values, k, m - 1);
        let a = exports_upto(keys, values, m - 1);
        let b = exports_upto(keys, values, k);
        assert(m >= 2);
        assert(exports_upto(keys, values, m) == a + " && "@ + export_of(keys[m - 1], values[m - 1]));
        assert(exports_upto(keys, values, m).subrange(0, b.len() as int) =~= a.subrange(0, b.len() as int));
    } else {
        assert(exports_upto(keys, values, m).subrange(0, exports_upto(keys, values, m).len() as int)
            =~= exports_upto(keys, values, m));
    }
}

/// Where the export of option `i` stands among the exports.
pub open spec fn export_pos(keys: Seq<Seq<char>>, values: Seq<JsonValue>, i: int) -> int {
    if i == 0 {
        0
    } else {
        exports_upto(keys, values, i).len() + 4int
    }
}

/// The export of option `i` stands at [`export_pos`] in the exports of the first `m`
/// options, for each `i < m`, and ends where the exports of the first `i + 1` end.
proof fn lemma_export_at(keys: Seq<Seq<char>>, values: Seq<JsonValue>, i: int, m: int)
    requires
        0 <= i < m,
    ensures
        occurs_at(exports_upto(keys, values, m), option_export(keys[i], values[i]), export_pos(keys, values, i)),
        export_pos(keys, values, i) + option_export(keys[i], values[i]).len() == exports_upto(keys, values, i + 1).len(),
{
    reveal_strlit(" && ");
    let e = option_export(keys[i], values[i]);
    assert(e == export_of(keys[i], values[i]));
    let w = exports_upto(keys, values, i + 1);
    let p = export_pos(keys, values, i);
    if i == 0 {
        assert(w == e);
        assert(w.subrange(0, e.len() as int) =~= e);
    } else {
        let a = exports_upto(keys, values, i);
        assert(w == a + " && "@ + e);
        assert(w.subrange(p, p + e.len()) =~= e);
    }
    lemma_exports_prefix(keys, values, i + 1, m);
    let s = exports_upto(keys, values, m);
    assert(s.subrange(p, p + e.len()) =~= w.subrange(p, p + e.len())) by {
        assert forall|k: int| 0 <= k < e.len() implies #[trigger] s.subrange(p, p + e.len())[k] == w.subrange(p, p + e.len())[k] by {
            assert(s.subrange(0, w.len() as int)[p + k] == w[p + k]);
        }
    }
}

/// The export of option `i` stands somewhere in `s`.
pub open spec fn option_exported(s: Seq<char>, keys: Seq<Seq<char>>, values: Seq<JsonValue>, i: int) -> bool {
    exists|p: int| occurs_at(s, option_export(keys[i], values[i]), p)
}

/// The export of option `i` stands in `s` before that of option `j`.
pub open spec fn exported_before(s: Seq<char>, keys: Seq<Seq<char>>, values: Seq<JsonValue>, i: int, j: int) -> bool {
    exists|p: int, q: int| p < q && occurs_at(s, option_export(keys[i], values[i]), p)
        && occurs_at(s, option_export(keys[j], values[j]), q)
}

/// The install line exports every option of a feature whose options are an object:
/// each member `key: value` stands in the exports as `export KEY='value'`, and the
/// exports come in the order of the members.
pub proof fn law_every_option_exported(keys: Seq<Seq<char>>, values: Seq<JsonValue>)
    requires
        keys.len() == values.len(),
    ensures
        forall|i: int| 0 <= i < keys.len() ==> #[trigger] option_exported(exports(JsonValue::Object(keys, values)), keys, values, i),
        forall|i: int, j: int| 0 <= i < j < keys.len() ==> #[trigger] exported_before(exports(JsonValue::Object(keys, values)), keys, values, i, j),
{
    let n = keys.len() as int;
    let s = exports(JsonValue::Object(keys, values));
    assert(s == exports_upto(keys, values, n));
    assert forall|i: int| 0 <= i < keys.len() implies #[trigger] option_exported(s, keys, values, i) by {
        lemma_export_at(keys, values, i, n);
        assert(occurs_at(s, option_export(keys[i], values[i]), export_pos(keys, values, i)));
    }
    assert forall|i: int, j: int| 0 <= i < j < keys.len() implies #[trigger] exported_before(s, keys, values, i, j) by {
        lemma_export_at(keys, values, i, n);
        lemma_export_at(keys, values, j, n);
        lemma_exports_prefix(keys, values, i + 1, j);
        let p = export_pos(keys, values, i);
        let q = export_pos(keys, values, j);
        assert(p < q);
        assert(occurs_at(s, option_export(keys[i], values[i]), p));
        assert(occurs_at(s, option_export(keys[j], values[j]), q));
    }
}

/// The install line of a feature whose options are an object of at least one member
/// runs `RUN`, the export of every option, in the order of the members, and then the
/// install script of the feature's folder.
pub proof fn law_run_line_exports_options(id: Seq<char>, keys: Seq<Seq<char>>, values: Seq<JsonValue>)
    requires
        keys.len() == values.len(),
        keys.len() > 0,
    ensures
        forall|i: int| 0 <= i < keys.len() ==> #[trigger] option_exported(run_line(id, JsonValue::Object(keys, values)), keys, values, i),
        forall|i: int, j: int| 0 <= i < j < keys.len() ==> #[trigger] exported_before(run_line(id, JsonValue::Object(keys, values)), keys, values, i, j),
        run_line(id, JsonValue::Object(keys, values)).take(4) == "RUN "@,
        ({
            let t = run_line(id, JsonValue::Object(keys, values));
            let script = " && chmod -R 0755 "@ + install_dest(id) + " && cd "@ + install_dest(id) + " && chmod +x ./install.sh && ./install.sh"@;
            t.len() >= script.len() && t.skip(t.len() - script.len()) == script
        }),
{
    reveal_strlit("RUN ");
    reveal_strlit(" && ");
    let n = keys.len() as int;
    let ex = exports(JsonValue::Object(keys, values));
    assert(ex == exports_upto(keys, values, n));
    lemma_export_at(keys, values, 0, n);
    assert(option_export(keys[0], values[0]).len() > 0) by {
        reveal_strlit("export ");
    }
    assert(ex.len() > 0);
    let dest = install_dest(id);
    let script = "chmod -R 0755 "@ + dest + " && cd "@ + dest + " && chmod +x ./install.sh && ./install.sh"@;
    let t = run_line(id, JsonValue::Object(keys, values));
    assert(t == "RUN "@ + ex + " && "@ + script);
    assert(t.take(4) =~= "RUN "@);
    let tail = " && chmod -R 0755 "@ + dest + " && cd "@ + dest + " && chmod +x ./install.sh && ./install.sh"@;
    assert(tail =~= " && "@ + script) by {
        reveal_strlit(" && chmod -R 0755 ");
        reveal_strlit("chmod -R 0755 ");
    }
    assert(t.skip(t.len() - tail.len()) =~= tail);
    law_every_option_exported(keys, values);
    assert forall|i: int| 0 <= i < keys.len() implies #[trigger] option_exported(t, keys, values, i) by {
        assert(option_exported(ex, keys, values, i));
        let p = choose|p: int| occurs_at(ex, option_export(keys[i], values[i]), p);
        let e = option_export(keys[i], values[i]);
        assert(t.subrange(p + 4, p + 4 + e.len()) =~= ex.subrange(p, p + e.len()));
        assert(occurs_at(t, e, p + 4));
    }
    assert forall|i: int, j: int| 0 <= i < j < keys.len() implies #[trigger] exported_before(t, keys, values, i, j) by {
        assert(exported_before(ex, keys, values, i, j));
        let (p, q) = choose|p: int, q: int| p < q && occurs_at(ex, option_export(keys[i], values[i]), p)
            && occurs_at(ex, option_export(keys[j], values[j]), q);
        let e = option_export(keys[i], values[i]);
        let f = option_export(keys[j], values[j]);
        assert(t.subrange(p + 4, p + 4 + e.len()) =~= ex.subrange(p, p + e.len()));
        assert(t.subrange(q + 4, q + 4 + f.len()) =~= ex.subrange(q, q + f.len()));
        assert(occurs_at(t, e, p + 4));
        assert(occurs_at(t, f, q + 4));
    }
}

} // verus!
