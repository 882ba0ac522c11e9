use vstd::prelude::*;

use crate::devcontainer::shell::{trim, trim_chars};
use crate::text::{chars_of, lines_view, string_of, sub_chars};

verus! {

/// End of the line that starts at `i`.
pub open spec fn line_end(s: Seq<char>, i: int) -> int
    decreases s.len() - i,
{
    if i < 0 || i >= s.len() || s[i] == '\n' {
        i
    } else {
        line_end(s, i + 1)
    }
}

/// The lines of `s[i..]`, each trimmed, without the blank ones.
pub open spec fn trimmed_lines(s: Seq<char>, i: int) -> Seq<Seq<char>>
    decreases s.len() - i,
{
    if i < 0 || i >= s.len() {
        Seq::empty()
    } else {
        let e = line_end(s, i);
        let t = trim(s.subrange(i, e));
        let rest = if i < e + 1 && e + 1 <= s.len() {
            trimmed_lines(s, e + 1)
        } else {
            Seq::empty()
        };
        if t.len() == 0 {
            rest
        } else {
            seq![t] + rest
        }
    }
}

pub proof fn lemma_line_end(s: Seq<char>, i: int)
    requires
        0 <= i <= s.len(),
    ensures
        i <= line_end(s, i) <= s.len(),
    decreases s.len() - i,
{
    if i < s.len() {
        lemma_line_end(s, i + 1);
    }
}

/// A container found for a workspace.
pub struct Container {
    pub id: String,
    pub remote_user: Option<String>,
}

/// The lines of `output` that are not blank, trimmed.
pub fn parse_container_ids(output: &str) -> (r: Vec<String>)
    ensures
        lines_view(r@) == trimmed_lines(output@, 0),
{
    let s = chars_of(output);
    let mut r: Vec<String> = Vec::new();
    let mut i: usize = 0;
    while i < s.len()
        invariant
            i <= s.len(),
            lines_view(r@) + trimmed_lines(s@, i as int) == trimmed_lines(s@, 0),
        decreases s.len() - i,
    {
        let mut e = i;
        while e < s.len() && s[e] != '\n'
            invariant
                i <= e <= s.len(),
                line_end(s@, i as int) == line_end(s@, e as int),
            decreases s.len() - e,
        {
            e += 1;
        }
        let line = sub_chars(&s, i, e);
        let t = trim_chars(&line);
        let ghost before = lines_view(r@);
        if t.len() > 0 {
            r.push(string_of(t.as_slice()));
            assert(lines_view(r@) =~= before.push(t@));
            assert(before.push(t@) + trimmed_lines(s@, e + 1) =~= before + (seq![t@] + trimmed_lines(s@, e + 1)));
        }
        if e < s.len() {
            i = e + 1;
        } else {
            i = e;
            assert(trimmed_lines(s@, e as int) =~= Seq::<Seq<char>>::empty());
        }
    }
    assert(lines_view(r@) + Seq::<Seq<char>>::empty() =~= lines_view(r@));
    r
}

/// The first line of `output` that is not blank, trimmed.
pub fn parse_container_id(output: &str) -> (r: Option<String>)
    ensures
        match r {
            Some(id) => trimmed_lines(output@, 0).len() > 0 && id@ == trimmed_lines(output@, 0)[0],
            None => trimmed_lines(output@, 0).len() == 0,
        },
{
    let mut ids = parse_container_ids(output);
    if ids.len() == 0 {
        None
    } else {
        let ghost v = lines_view(ids@);
        let first = ids.remove(0);
        assert(first@ == v[0]);
        Some(first)
    }
}

} // verus!
