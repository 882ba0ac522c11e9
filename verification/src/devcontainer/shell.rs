use vstd::prelude::*;

use crate::text::{chars_of, string_of, sub_chars};

verus! {

/// Whether `c` is white space in Unicode, as `char::is_whitespace` has it.
pub open spec fn is_white(c: char) -> bool {
    let u = c as u32;
    (9 <= u <= 13) || u == 32 || u == 0x85 || u == 0xA0 || u == 0x1680 || (0x2000 <= u <= 0x200A)
        || u == 0x2028 || u == 0x2029 || u == 0x202F || u == 0x205F || u == 0x3000
}

pub fn is_white_exec(c: char) -> (r: bool)
    ensures
        r == is_white(c),
{
    let u = c as u32;
    (9 <= u && u <= 13) || u == 32 || u == 0x85 || u == 0xA0 || u == 0x1680 || (0x2000 <= u && u
        <= 0x200A) || u == 0x2028 || u == 0x2029 || u == 0x202F || u == 0x205F || u == 0x3000
}

/// Number of white characters at the start of `s`.
pub open spec fn white_prefix(s: Seq<char>, i: int) -> int
    decreases s.len() - i,
{
    if 0 <= i < s.len() && is_white(s[i]) {
        white_prefix(s, i + 1)
    } else {
        i
    }
}

/// Start of the white run that ends `s[..n]`.
pub open spec fn white_suffix(s: Seq<char>, n: int) -> int
    decreases n,
{
    if 0 < n <= s.len() && is_white(s[n - 1]) {
        white_suffix(s, n - 1)
    } else {
        n
    }
}

/// `s` without white space at either end.
pub open spec fn trim(s: Seq<char>) -> Seq<char> {
    let a = white_prefix(s, 0);
    let b = white_suffix(s, s.len() as int);
    if a < b {
        s.subrange(a, b)
    } else {
        Seq::empty()
    }
}

proof fn lemma_white_prefix(s: Seq<char>, i: int)
    requires
        0 <= i <= s.len(),
    ensures
        i <= white_prefix(s, i) <= s.len(),
    decreases s.len() - i,
{
    if i < s.len() {
        lemma_white_prefix(s, i + 1);
    }
}

proof fn lemma_white_suffix(s: Seq<char>, n: int)
    requires
        0 <= n <= s.len(),
    ensures
        0 <= white_suffix(s, n) <= n,
    decreases n,
{
    if n > 0 {
        lemma_white_suffix(s, n - 1);
    }
}

/// `s` without white space at either end.
pub fn trim_chars(s: &Vec<char>) -> (r: Vec<char>)
    ensures
        r@ == trim(s@),
{
    let mut a: usize = 0;
    while a < s.len() && is_white_exec(s[a])
        invariant
            a <= s.len(),
            white_prefix(s@, 0) == white_prefix(s@, a as int),
        decreases s.len() - a,
    {
        a += 1;
    }
    let mut b: usize = s.len();
    while b > 0 && is_white_exec(s[b - 1])
        invariant
            b <= s.len(),
            white_suffix(s@, s.len() as int) == white_suffix(s@, b as int),
        decreases b,
    {
        b -= 1;
    }
    if a < b {
        sub_chars(s, a, b)
    } else {
        Vec::new()
    }
}

/// Start of field `k` (counted from 0) of `s`, split at `:`, searched from `i` with
/// `k` fields left to skip.
pub open spec fn field_start(s: Seq<char>, i: int, k: nat) -> Option<int>
    decreases s.len() - i, k,
{
    if k == 0 {
        Some(i)
    } else if i < 0 || i >= s.len() {
        None
    } else if s[i] == ':' {
        field_start(s, i + 1, (k - 1) as nat)
    } else {
        field_start(s, i + 1, k)
    }
}

/// End of the field that starts at `i`.
pub open spec fn field_end(s: Seq<char>, i: int) -> int
    decreases s.len() - i,
{
    if i < 0 || i >= s.len() || s[i] == ':' {
        i
    } else {
        field_end(s, i + 1)
    }
}

/// Field `k` of `s` split at `:`, where there is one.
pub open spec fn field(s: Seq<char>, k: nat) -> Option<Seq<char>> {
    match field_start(s, 0, k) {
        Some(a) => Some(s.subrange(a, field_end(s, a))),
        None => None,
    }
}

proof fn lemma_field_start(s: Seq<char>, i: int, k: nat)
    requires
        0 <= i <= s.len(),
    ensures
        field_start(s, i, k) matches Some(a) ==> i <= a <= s.len(),
    decreases s.len() - i, k,
{
    if k > 0 && i < s.len() {
        if s[i] == ':' {
            lemma_field_start(s, i + 1, (k - 1) as nat);
        } else {
            lemma_field_start(s, i + 1, k);
        }
    }
}

proof fn lemma_field_end(s: Seq<char>, i: int)
    requires
        0 <= i <= s.len(),
    ensures
        i <= field_end(s, i) <= s.len(),
    decreases s.len() - i,
{
    if i < s.len() {
        lemma_field_end(s, i + 1);
    }
}

/// The login shell of a `passwd` line: its seventh field, where that is present and not empty.
pub fn parse_shell_from_passwd(passwd_line: &str) -> (r: Option<String>)
    ensures
        match field(trim(passwd_line@), 6) {
            Some(f) => if f.len() == 0 {
                r is None
            } else {
                r matches Some(x) && x@ == f
            },
            None => r is None,
        },
{
    let raw = chars_of(passwd_line);
    let s = trim_chars(&raw);
    let mut i: usize = 0;
    let mut k: usize = 6;
    while k > 0
        invariant
            i <= s.len(),
            k <= 6,
            s@ == trim(passwd_line@),
            field_start(s@, 0, 6) == field_start(s@, i as int, k as nat),
        decreases s.len() - i, k,
    {
        if i >= s.len() {
            assert(field_start(s@, i as int, k as nat) is None);
            assert(field(s@, 6) is None);
            return None;
        }
        if s[i] == ':' {
            k -= 1;
        }
        i += 1;
    }
    let mut j = i;
    while j < s.len() && s[j] != ':'
        invariant
            i <= j <= s.len(),
            field_end(s@, i as int) == field_end(s@, j as int),
        decreases s.len() - j,
    {
        j += 1;
    }
    if j == i {
        None
    } else {
        let f = sub_chars(&s, i, j);
        Some(string_of(f.as_slice()))
    }
}

} // verus!
