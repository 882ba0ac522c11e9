use vstd::prelude::*;

use super::grammar::{hex4, hex_value, read_string, string_rest, JsoncError};
use super::writer::{escaped, escaped_all, string_literal};
use crate::docker::tag::{hex_char, hex_digits};

verus! {

/// Writing the characters of `a` then those of `b` writes those of `a + b`.
proof fn lemma_escaped_all_append(a: Seq<char>, b: Seq<char>)
    ensures
        escaped_all(a + b) == escaped_all(a) + escaped_all(b),
    decreases b.len(),
{
    if b.len() == 0 {
        assert(a + b =~= a);
        assert(escaped_all(a) + escaped_all(b) =~= escaped_all(a));
    } else {
        lemma_escaped_all_append(a, b.drop_last());
        assert((a + b).drop_last() =~= a + b.drop_last());
        assert((a + b).last() == b.last());
        assert(escaped_all(a) + escaped_all(b.drop_last()) + escaped(b.last()) =~= escaped_all(a) + (
        escaped_all(b.drop_last()) + escaped(b.last())));
    }
}

/// A hexadecimal digit reads back as its value.
proof fn lemma_hex_char_value(d: nat)
    requires
        d < 16,
    ensures
        hex_value(hex_char(d)) == d,
{
}

/// The four digits written for a control character read back as its code.
proof fn lemma_control_escape(s: Seq<char>, at: int, n: nat)
    requires
        n < 0x20,
        0 <= at,
        at + 4 <= s.len(),
        s.subrange(at, at + 4) == hex_digits(n, 4),
    ensures
        hex4(s, at) == Some(n as u32),
{
    reveal_with_fuel(hex_digits, 5);
    let h = hex_digits(n, 4);
    assert(n / 16 / 16 == 0);
    assert(h =~= seq![hex_char(0), hex_char(0), hex_char(n / 16), hex_char(n % 16)]);
    lemma_hex_char_value(0);
    lemma_hex_char_value(n / 16);
    lemma_hex_char_value(n % 16);
    assert(s[at] == h[0] && s[at + 1] == h[1] && s[at + 2] == h[2] && s[at + 3] == h[3]);
}

/// Reading what is written for the character `c` gives `c` back.
proof fn lemma_read_escaped(s: Seq<char>, start: int, p: int, c: char, acc: Seq<char>)
    requires
        0 <= p,
        p + escaped(c).len() < s.len(),
        s.subrange(p, p + escaped(c).len()) == escaped(c),
    ensures
        string_rest(s, start, p, acc) == string_rest(s, start, p + escaped(c).len(), acc.push(c)),
{
    reveal_strlit("\\\"");
    reveal_strlit("\\\\");
    reveal_strlit("\\n");
    reveal_strlit("\\r");
    reveal_strlit("\\t");
    reveal_strlit("\\b");
    reveal_strlit("\\f");
    reveal_strlit("\\u");
    let e = escaped(c);
    assert(s[p] == e[0]);
    if e.len() >= 2 {
        assert(s[p + 1] == e[1]);
    }
    if c != '"' && c != '\\' && c != '\n' && c != '\r' && c != '\t' && c != '\u{8}' && c != '\u{c}' && (c as u32) < 0x20 {
        let n = c as u32 as nat;
        assert(hex_digits(n, 4).len() == 4) by {
            reveal_with_fuel(hex_digits, 5);
        }
        assert(e =~= "\\u"@ + hex_digits(n, 4));
        assert(e.len() == 6);
        assert(s.subrange(p + 2, p + 6) =~= hex_digits(n, 4)) by {
            assert forall|k: int| 0 <= k < 4 implies s.subrange(p + 2, p + 6)[k] == hex_digits(n, 4)[k] by {
                assert(s[p + 2 + k] == e[2 + k]);
            }
        }
        lemma_control_escape(s, p + 2, n);
        assert((n as u32) as char == c);
    }
}

/// Reading what is written for the characters `t` gives `t` back.
proof fn lemma_read_escaped_all(s: Seq<char>, start: int, p: int, t: Seq<char>, acc: Seq<char>)
    requires
        0 <= p,
        p + escaped_all(t).len() < s.len(),
        s.subrange(p, p + escaped_all(t).len()) == escaped_all(t),
    ensures
        string_rest(s, start, p, acc) == string_rest(s, start, p + escaped_all(t).len(), acc + t),
    decreases t.len(),
{
    if t.len() == 0 {
        assert(acc + t =~= acc);
    } else {
        let c = t[0];
        let u = t.drop_first();
        assert(seq![c] + u =~= t);
        lemma_escaped_all_append(seq![c], u);
        assert(seq![c].drop_last() =~= Seq::<char>::empty());
        assert(escaped_all(seq![c]) =~= escaped(c)) by {
            reveal_with_fuel(escaped_all, 2);
            assert(escaped_all(seq![c]) == escaped_all(seq![c].drop_last()) + escaped(c));
        }
        let n = escaped(c).len();
        assert(s.subrange(p, p + n) =~= escaped(c)) by {
            assert forall|k: int| 0 <= k < n implies s.subrange(p, p + n)[k] == escaped(c)[k] by {
                assert(s[p + k] == escaped_all(t)[k]);
            }
        }
        lemma_read_escaped(s, start, p, c, acc);
        assert(s.subrange(p + n, p + n + escaped_all(u).len()) =~= escaped_all(u)) by {
            assert forall|k: int| 0 <= k < escaped_all(u).len() implies s.subrange(p + n, p + n + escaped_all(u).len())[k]
                == escaped_all(u)[k] by {
                assert(s[p + n + k] == escaped_all(t)[n + k]);
            }
        }
        lemma_read_escaped_all(s, start, p + n, u, acc.push(c));
        assert(acc.push(c) + u =~= acc + t);
    }
}

/// A string literal written for `t` reads back as `t`, ending right after its closing
/// quote, whatever text stands before and after it.
pub proof fn law_string_literal_reads_back(before: Seq<char>, t: Seq<char>, after: Seq<char>)
    ensures
        read_string(before + string_literal(t) + after, before.len() as int) == Ok::<(Seq<char>, int), JsoncError>(
            (t, (before.len() + string_literal(t).len()) as int),
        ),
{
    reveal_strlit("\"");
    let s = before + string_literal(t) + after;
    let b = before.len() as int;
    let m = escaped_all(t).len() as int;
    assert(string_literal(t).len() == m + 2);
    assert(s.subrange(b + 1, b + 1 + m) =~= escaped_all(t)) by {
        assert forall|k: int| 0 <= k < m implies s.subrange(b + 1, b + 1 + m)[k] == escaped_all(t)[k] by {
            assert(s[b + 1 + k] == string_literal(t)[1 + k]);
        }
    }
    assert(s[b + 1 + m] == string_literal(t)[m + 1]);
    lemma_read_escaped_all(s, b, b + 1, t, Seq::empty());
    assert(Seq::<char>::empty() + t =~= t);
}

} // verus!
