use vstd::prelude::*;

use super::model::{lemma_array_view, lemma_object_view, JsonValue, Value};
use super::number::{Number, NumberModel};
use crate::docker::tag::hex_digits;
use crate::text::{chars_of, push_str, string_of};

verus! {

/// `n` copies of `c`.
pub open spec fn repeat(c: char, n: nat) -> Seq<char> {
    Seq::new(n, |i: int| c)
}

pub open spec fn digit_chars(d: Seq<u8>) -> Seq<char> {
    d.map_values(|x: u8| (48 + x) as char)
}

/// How a number is written: plain decimal notation, without exponent; a number too
/// small for a double is written `0`.
pub open spec fn number_text(m: NumberModel) -> Seq<char> {
    if m.digits.len() == 0 || m.digits.len() + m.exponent <= -324 {
        "0"@
    } else {
        let ds = digit_chars(m.digits);
        let body = if m.exponent >= 0 {
            ds + repeat('0', m.exponent as nat)
        } else {
            let k = -m.exponent;
            if k >= ds.len() {
                "0."@ + repeat('0', (k - ds.len()) as nat) + ds
            } else {
                ds.take(ds.len() - k) + "."@ + ds.skip(ds.len() - k)
            }
        };
        if m.negative {
            "-"@ + body
        } else {
            body
        }
    }
}

/// How a character is written inside a string literal.
pub open spec fn escaped(c: char) -> Seq<char> {
    if c == '"' {
        "\\\""@
    } else if c == '\\' {
        "\\\\"@
    } else if c == '\n' {
        "\\n"@
    } else if c == '\r' {
        "\\r"@
    } else if c == '\t' {
        "\\t"@
    } else if c == '\u{8}' {
        "\\b"@
    } else if c == '\u{c}' {
        "\\f"@
    } else if (c as u32) < 0x20 {
        "\\u"@ + hex_digits(c as u32 as nat, 4)
    } else {
        seq![c]
    }
}

pub open spec fn escaped_all(s: Seq<char>) -> Seq<char>
    decreases s.len(),
{
    if s.len() == 0 {
        Seq::empty()
    } else {
        escaped_all(s.drop_last()) + escaped(s.last())
    }
}

/// A string literal for `s`.
pub open spec fn string_literal(s: Seq<char>) -> Seq<char> {
    "\""@ + escaped_all(s) + "\""@
}

/// The compact JSON text of a value.
pub open spec fn compact_text(v: JsonValue) -> Seq<char>
    decreases v, 1int,
{
    match v {
        JsonValue::Null => "null"@,
        JsonValue::Bool(b) => if b {
            "true"@
        } else {
            "false"@
        },
        JsonValue::Number(m) => number_text(m),
        JsonValue::Str(s) => string_literal(s),
        JsonValue::Array(items) => "["@ + compact_items(items, items.len() as int) + "]"@,
        JsonValue::Object(keys, values) => "{"@ + compact_members(keys, values, keys.len() as int) + "}"@,
    }
}

/// The first `n` items, written compactly and separated by commas.
pub open spec fn compact_items(items: Seq<JsonValue>, n: int) -> Seq<char>
    decreases items, 0int, n,
{
    if n <= 0 || n > items.len() {
        Seq::empty()
    } else {
        proof {
            assert(decreases_to!(items => items[n - 1]));
        }
        compact_items(items, n - 1) + (if n > 1 {
            ","@
        } else {
            Seq::empty()
        }) + compact_text(items[n - 1])
    }
}

/// The first `n` members, written compactly and separated by commas.
pub open spec fn compact_members(keys: Seq<Seq<char>>, values: Seq<JsonValue>, n: int) -> Seq<char>
    decreases values, 0int, n,
{
    if n <= 0 || n > values.len() || n > keys.len() {
        Seq::empty()
    } else {
        proof {
            assert(decreases_to!(values => values[n - 1]));
        }
        compact_members(keys, values, n - 1) + (if n > 1 {
            ","@
        } else {
            Seq::empty()
        }) + string_literal(keys[n - 1]) + ":"@ + compact_text(values[n - 1])
    }
}

/// How deeply a value nests arrays and objects.
pub open spec fn value_depth(v: JsonValue) -> nat
    decreases v, 1int,
{
    match v {
        JsonValue::Array(items) => 1 + list_depth(items, items.len() as int),
        JsonValue::Object(keys, values) => 1 + list_depth(values, values.len() as int),
        _ => 0,
    }
}

pub open spec fn list_depth(items: Seq<JsonValue>, n: int) -> nat
    decreases items, 0int, n,
{
    if n <= 0 || n > items.len() {
        0
    } else {
        proof {
            assert(decreases_to!(items => items[n - 1]));
        }
        let a = list_depth(items, n - 1);
        let b = value_depth(items[n - 1]);
        if a >= b {
            a
        } else {
            b
        }
    }
}

proof fn lemma_list_depth(items: Seq<JsonValue>, n: int, i: int)
    requires
        0 <= i < n <= items.len(),
    ensures
        value_depth(items[i]) <= list_depth(items, n),
    decreases n,
{
    if i < n - 1 {
        lemma_list_depth(items, n - 1, i);
    }
}

/// Two spaces for each level.
pub open spec fn indent_text(level: nat) -> Seq<char> {
    Seq::new(2 * level, |i: int| ' ')
}

/// The pretty-printed JSON text of a value at nesting `level`.
pub open spec fn pretty_text(v: JsonValue, level: nat) -> Seq<char>
    decreases v, 1int,
{
    match v {
        JsonValue::Array(items) => if items.len() == 0 {
            "[]"@
        } else {
            "["@ + pretty_items(items, level, items.len() as int) + "\n"@ + indent_text(level) + "]"@
        },
        JsonValue::Object(keys, values) => if keys.len() == 0 {
            "{}"@
        } else {
            "{"@ + pretty_members(keys, values, level, keys.len() as int) + "\n"@ + indent_text(level)
                + "}"@
        },
        _ => compact_text(v),
    }
}

pub open spec fn pretty_items(items: Seq<JsonValue>, level: nat, n: int) -> Seq<char>
    decreases items, 0int, n,
{
    if n <= 0 || n > items.len() {
        Seq::empty()
    } else {
        proof {
            assert(decreases_to!(items => items[n - 1]));
        }
        pretty_items(items, level, n - 1) + (if n > 1 {
            ","@
        } else {
            Seq::empty()
        }) + "\n"@ + indent_text(level + 1) + pretty_text(items[n - 1], level + 1)
    }
}

pub open spec fn pretty_members(keys: Seq<Seq<char>>, values: Seq<JsonValue>, level: nat, n: int) -> Seq<char>
    decreases values, 0int, n,
{
    if n <= 0 || n > values.len() || n > keys.len() {
        Seq::empty()
    } else {
        proof {
            assert(decreases_to!(values => values[n - 1]));
        }
        pretty_members(keys, values, level, n - 1) + (if n > 1 {
            ","@
        } else {
            Seq::empty()
        }) + "\n"@ + indent_text(level + 1) + string_literal(keys[n - 1]) + ": "@ + pretty_text(
            values[n - 1],
            level + 1,
        )
    }
}

fn push_hex4(out: &mut Vec<char>, code: u32)
    requires
        code < 0x10000,
    ensures
        final(out)@ == old(out)@ + hex_digits(code as nat, 4),
{
    let d3 = code / 4096;
    let d2 = (code / 256) % 16;
    let d1 = (code / 16) % 16;
    let d0 = code % 16;
    push_hex_digit(out, d3);
    push_hex_digit(out, d2);
    push_hex_digit(out, d1);
    push_hex_digit(out, d0);
    proof {
        let n = code as nat;
        assert(n / 16 / 16 == n / 256) by (nonlinear_arith);
        assert(n / 16 / 16 / 16 == n / 4096) by (nonlinear_arith);
        assert(n / 4096 < 16);
        assert((n / 4096) % 16 == n / 4096);
        reveal_with_fuel(hex_digits, 5);
        assert(hex_digits(n, 4) =~= seq![
            crate::docker::tag::hex_char(n / 4096),
            crate::docker::tag::hex_char((n / 256) % 16),
            crate::docker::tag::hex_char((n / 16) % 16),
            crate::docker::tag::hex_char(n % 16),
        ]);
    }
    assert(final(out)@ =~= old(out)@ + hex_digits(code as nat, 4));
}

fn push_hex_digit(out: &mut Vec<char>, d: u32)
    requires
        d < 16,
    ensures
        final(out)@ == old(out)@.push(crate::docker::tag::hex_char(d as nat)),
{
    if d < 10 {
        out.push((48 + d as u8) as char);
    } else {
        out.push((87 + d as u8) as char);
    }
}

/// Appends the string literal for `s`.
pub fn push_string_literal(out: &mut Vec<char>, s: &str)
    ensures
        final(out)@ == old(out)@ + string_literal(s@),
{
    let v = chars_of(s);
    let ghost start = out@;
    push_str(out, "\"");
    assert(v@.take(0) =~= Seq::<char>::empty());
    assert(out@ =~= start + "\""@ + escaped_all(v@.take(0)));
    let mut i: usize = 0;
    while i < v.len()
        invariant
            i <= v.len(),
            out@ == start + "\""@ + escaped_all(v@.take(i as int)),
        decreases v.len() - i,
    {
        let c = v[i];
        let ghost before = out@;
        if c == '"' {
            push_str(out, "\\\"");
        } else if c == '\\' {
            push_str(out, "\\\\");
        } else if c == '\n' {
            push_str(out, "\\n");
        } else if c == '\r' {
            push_str(out, "\\r");
        } else if c == '\t' {
            push_str(out, "\\t");
        } else if c == '\u{8}' {
            push_str(out, "\\b");
        } else if c == '\u{c}' {
            push_str(out, "\\f");
        } else if (c as u32) < 0x20 {
            push_str(out, "\\u");
            push_hex4(out, c as u32);
        } else {
            out.push(c);
        }
        proof {
            assert(v@.take(i + 1).drop_last() =~= v@.take(i as int));
            reveal_strlit("\"");
        }
        assert(out@ =~= start + "\""@ + escaped_all(v@.take(i + 1)));
        i += 1;
    }
    push_str(out, "\"");
    assert(v@.take(v.len() as int) =~= v@);
    assert(out@ =~= start + string_literal(s@));
}

/// Appends the text of a number.
pub fn push_number(out: &mut Vec<char>, n: &Number)
    ensures
        final(out)@ == old(out)@ + number_text(n@),
{
    let d = n.digits_ref();
    let e = n.exponent_value();
    let ghost start = out@;
    if d.len() == 0 || (d.len() as i128) + e <= -324 {
        push_str(out, "0");
        return;
    }
    if n.is_negative() {
        push_str(out, "-");
    }
    let ghost signed = out@;
    let ghost ds = digit_chars(d@);
    if e >= 0 {
        push_digits(out, d, 0, d.len());
        let mut k: i128 = 0;
        let ghost mid = out@;
        while k < e
            invariant
                0 <= k <= e,
                out@ == mid + repeat('0', k as nat),
            decreases e - k,
        {
            out.push('0');
            assert(out@ =~= mid + repeat('0', (k + 1) as nat));
            k += 1;
        }
        assert(ds.subrange(0, d.len() as int) =~= ds);
    } else {
        let k = -e;
        if k >= d.len() as i128 {
            push_str(out, "0.");
            let gap = k - d.len() as i128;
            let mut z: i128 = 0;
            let ghost mid = out@;
            while z < gap
                invariant
                    0 <= z <= gap,
                    out@ == mid + repeat('0', z as nat),
                decreases gap - z,
            {
                out.push('0');
                assert(out@ =~= mid + repeat('0', (z + 1) as nat));
                z += 1;
            }
            push_digits(out, d, 0, d.len());
            assert(ds.subrange(0, d.len() as int) =~= ds);
        } else {
            let split = d.len() - k as usize;
            push_digits(out, d, 0, split);
            push_str(out, ".");
            push_digits(out, d, split, d.len());
            assert(ds.subrange(0, split as int) =~= ds.take(split as int));
            assert(ds.subrange(split as int, d.len() as int) =~= ds.skip(split as int));
        }
    }
    proof {
        reveal_strlit("-");
    }
    assert(out@ =~= start + number_text(n@));
}

fn push_digits(out: &mut Vec<char>, d: &Vec<u8>, lo: usize, hi: usize)
    requires
        lo <= hi <= d.len(),
        forall|i: int| 0 <= i < d.len() ==> #[trigger] d@[i] < 10,
    ensures
        final(out)@ == old(out)@ + digit_chars(d@).subrange(lo as int, hi as int),
{
    let ghost start = out@;
    let mut i = lo;
    while i < hi
        invariant
            lo <= i <= hi <= d.len(),
            forall|j: int| 0 <= j < d.len() ==> #[trigger] d@[j] < 10,
            out@ == start + digit_chars(d@).subrange(lo as int, i as int),
        decreases hi - i,
    {
        out.push((48 + d[i]) as char);
        assert(out@ =~= start + digit_chars(d@).subrange(lo as int, i + 1));
        i += 1;
    }
}

/// Appends the compact JSON text of a value.
#[verifier::loop_isolation(false)]
#[verifier::rlimit(40)]
pub fn write_compact(v: &Value, out: &mut Vec<char>)
    ensures
        final(out)@ == old(out)@ + compact_text(v@),
    decreases v,
{
    let ghost start = out@;
    match v {
        Value::Null => push_str(out, "null"),
        Value::Bool(b) => if *b {
            push_str(out, "true")
        } else {
            push_str(out, "false")
        },
        Value::Number(n) => push_number(out, n),
        Value::String(s) => push_string_literal(out, s.as_str()),
        Value::Array(items) => {
            proof { lemma_array_view(*v); }
            let ghost models = Seq::new(items.len() as nat, |i: int| items@[i]@);
            assert(v@ matches JsonValue::Array(x) && x =~= models);
            push_str(out, "[");
            let mut i: usize = 0;
            while i < items.len()
                invariant
                    i <= items.len(),
                    out@ == start + "["@ + compact_items(models, i as int),
                decreases items.len() - i,
            {
                proof {
                    assert(decreases_to!(*v => (*v)->Array_0));
                    assert(decreases_to!(*items => items[i as int]));
                }
                if i > 0 {
                    push_str(out, ",");
                }
                write_compact(&items[i], out);
                proof { reveal_strlit(""); }
                assert(out@ =~= start + "["@ + compact_items(models, i + 1));
                i += 1;
            }
            push_str(out, "]");
        },
        Value::Object(members) => {
            proof { lemma_object_view(*v); }
            let ghost keys = Seq::new(members.len() as nat, |i: int| members@[i].0@);
            let ghost models = Seq::new(members.len() as nat, |i: int| members@[i].1@);
            assert(v@ matches JsonValue::Object(k, x) && k =~= keys && x =~= models);
            push_str(out, "{");
            let mut i: usize = 0;
            while i < members.len()
                invariant
                    i <= members.len(),
                    out@ == start + "{"@ + compact_members(keys, models, i as int),
                decreases members.len() - i,
            {
                proof {
                    assert(decreases_to!(*v => (*v)->Object_0));
                    assert(decreases_to!(*members => members[i as int]));
                    assert(decreases_to!(members[i as int] => members[i as int].1));
                }
                if i > 0 {
                    push_str(out, ",");
                }
                push_string_literal(out, members[i].0.as_str());
                push_str(out, ":");
                write_compact(&members[i].1, out);
                proof { reveal_strlit(""); }
                assert(out@ =~= start + "{"@ + compact_members(keys, models, i + 1));
                i += 1;
            }
            push_str(out, "}");
        },
    }
    assert(final(out)@ =~= start + compact_text(v@));
}

fn push_indent(out: &mut Vec<char>, level: usize)
    requires
        level < 0x4000_0000,
    ensures
        final(out)@ == old(out)@ + indent_text(level as nat),
{
    let ghost start = out@;
    let mut i: usize = 0;
    while i < level
        invariant
            i <= level < 0x4000_0000,
            out@ == start + indent_text(i as nat),
        decreases level - i,
    {
        out.push(' ');
        out.push(' ');
        assert(out@ =~= start + indent_text((i + 1) as nat));
        i += 1;
    }
}

/// Appends the pretty-printed JSON text of a value at nesting `level`.
pub fn write_pretty(v: &Value, level: usize, out: &mut Vec<char>)
    requires
        level + value_depth(v@) < 0x4000_0000,
    ensures
        final(out)@ == old(out)@ + pretty_text(v@, level as nat),
    decreases v, 1int,
{
    match v {
        Value::Array(items) => {
            proof {
                lemma_array_view(*v);
                assert(decreases_to!(*v => (*v)->Array_0));
            }
            let ghost models = Seq::new(items.len() as nat, |i: int| items@[i]@);
            assert(v@ matches JsonValue::Array(x) && x =~= models);
            write_pretty_array(items, level, out);
        },
        Value::Object(members) => {
            proof {
                lemma_object_view(*v);
                assert(decreases_to!(*v => (*v)->Object_0));
            }
            let ghost keys = Seq::new(members.len() as nat, |i: int| members@[i].0@);
            let ghost models = Seq::new(members.len() as nat, |i: int| members@[i].1@);
            assert(v@ matches JsonValue::Object(k, x) && k =~= keys && x =~= models);
            write_pretty_object(members, level, out);
        },
        _ => {
            write_compact(v, out);
        },
    }
}

#[verifier::loop_isolation(false)]
fn write_pretty_array(items: &Vec<Value>, level: usize, out: &mut Vec<char>)
    requires
        level + 1 + list_depth(Seq::new(items.len() as nat, |i: int| items@[i]@), items.len() as int) < 0x4000_0000,
    ensures
        final(out)@ == old(out)@ + pretty_text(JsonValue::Array(Seq::new(items.len() as nat, |i: int| items@[i]@)), level as nat),
    decreases items, 0int,
{
    let ghost start = out@;
    let ghost models = Seq::new(items.len() as nat, |i: int| items@[i]@);
    if items.len() == 0 {
        push_str(out, "[]");
        return;
    }
    push_str(out, "[");
    let mut i: usize = 0;
    while i < items.len()
        invariant
            i <= items.len(),
            out@ == start + "["@ + pretty_items(models, level as nat, i as int),
        decreases items.len() - i,
    {
        proof {
            assert(decreases_to!(*items => items[i as int]));
            lemma_list_depth(models, models.len() as int, i as int);
        }
        if i > 0 {
            push_str(out, ",");
        }
        push_str(out, "\n");
        push_indent(out, level + 1);
        write_pretty(&items[i], level + 1, out);
        proof { reveal_strlit(""); }
        assert(out@ =~= start + "["@ + pretty_items(models, level as nat, i + 1));
        i += 1;
    }
    push_str(out, "\n");
    push_indent(out, level);
    push_str(out, "]");
    assert(out@ =~= start + pretty_text(JsonValue::Array(models), level as nat));
}

#[verifier::loop_isolation(false)]
fn write_pretty_object(members: &Vec<(String, Value)>, level: usize, out: &mut Vec<char>)
    requires
        level + 1 + list_depth(Seq::new(members.len() as nat, |i: int| members@[i].1@), members.len() as int) < 0x4000_0000,
    ensures
        final(out)@ == old(out)@ + pretty_text(
            JsonValue::Object(
                Seq::new(members.len() as nat, |i: int| members@[i].0@),
                Seq::new(members.len() as nat, |i: int| members@[i].1@),
            ),
            level as nat,
        ),
    decreases members, 0int,
{
    let ghost start = out@;
    let ghost keys = Seq::new(members.len() as nat, |i: int| members@[i].0@);
    let ghost models = Seq::new(members.len() as nat, |i: int| members@[i].1@);
    if members.len() == 0 {
        push_str(out, "{}");
        return;
    }
    push_str(out, "{");
    let mut i: usize = 0;
    while i < members.len()
        invariant
            i <= members.len(),
            out@ == start + "{"@ + pretty_members(keys, models, level as nat, i as int),
        decreases members.len() - i,
    {
        proof {
            assert(decreases_to!(*members => members[i as int]));
            assert(decreases_to!(members[i as int] => members[i as int].1));
            lemma_list_depth(models, models.len() as int, i as int);
        }
        if i > 0 {
            push_str(out, ",");
        }
        push_str(out, "\n");
        push_indent(out, level + 1);
        push_string_literal(out, members[i].0.as_str());
        push_str(out, ": ");
        write_pretty(&members[i].1, level + 1, out);
        proof { reveal_strlit(""); }
        assert(out@ =~= start + "{"@ + pretty_members(keys, models, level as nat, i + 1));
        i += 1;
    }
    push_str(out, "\n");
    push_indent(out, level);
    push_str(out, "}");
    assert(out@ =~= start + pretty_text(JsonValue::Object(keys, models), level as nat));
}

impl Value {
    /// The value as compact JSON text.
    pub fn to_json_compact(&self) -> (r: String)
        ensures
            r@ == compact_text(self@),
    {
        let mut out: Vec<char> = Vec::new();
        write_compact(self, &mut out);
        string_of(out.as_slice())
    }

    /// The value as JSON text indented by two spaces per level.
    pub fn to_json_pretty(&self) -> (r: String)
        requires
            value_depth(self@) < 0x4000_0000,
        ensures
            r@ == pretty_text(self@, 0),
    {
        let mut out: Vec<char> = Vec::new();
        write_pretty(self, 0, &mut out);
        string_of(out.as_slice())
    }
}

} // verus!
