use vstd::prelude::*;
use vstd::string::StringSliceAdditionalSpecFns;

verus! {

pub const SCORE_MATCH: i32 = 16;
pub const BONUS_CONSECUTIVE: i32 = 4;
pub const BONUS_BOUNDARY: i32 = 8;
pub const BONUS_CAMEL: i32 = 4;
pub const FIRST_CHAR_MULTIPLIER: i32 = 2;
/// The score of a position that no match ends at.
pub const NEG_INF: i32 = -1073741824;

/// Longest query, in bytes, whose scores are sure to fit an `i32`.
pub const MAX_QUERY_LEN: usize = 59652323;

pub open spec fn is_upper(b: u8) -> bool {
    65 <= b <= 90
}

pub open spec fn lower(b: u8) -> u8 {
    if is_upper(b) {
        (b + 32) as u8
    } else {
        b
    }
}

/// The bonus for a match at byte `j` of `raw`.
pub open spec fn bonus(raw: Seq<u8>, j: int) -> int {
    if j == 0 {
        BONUS_BOUNDARY * FIRST_CHAR_MULTIPLIER
    } else {
        let prev = raw[j - 1];
        let curr = raw[j];
        if prev == 45 || prev == 95 || prev == 47 || prev == 46 {
            BONUS_BOUNDARY as int
        } else if is_upper(curr) && !is_upper(prev) {
            BONUS_CAMEL as int
        } else {
            0
        }
    }
}

pub open spec fn max(a: int, b: int) -> int {
    if a >= b {
        a
    } else {
        b
    }
}

/// Best score of matching the first `i + 1` query bytes with the last one at target byte `j`.
pub open spec fn cell(raw: Seq<u8>, q: Seq<u8>, i: int, j: int) -> int
    decreases i, j, 1int,
{
    if i < 0 || j < 0 || j >= raw.len() || i >= q.len() || lower(raw[j]) != lower(q[i]) {
        NEG_INF as int
    } else if i == 0 {
        SCORE_MATCH + bonus(raw, j)
    } else {
        let d = cell(raw, q, i - 1, j - 1);
        let consec = if j > 0 && d > NEG_INF {
            d + SCORE_MATCH + BONUS_CONSECUTIVE + bonus(raw, j)
        } else {
            NEG_INF as int
        };
        let mp = row_max(raw, q, i - 1, j);
        let gap = if mp > NEG_INF {
            mp + SCORE_MATCH + bonus(raw, j)
        } else {
            NEG_INF as int
        };
        max(consec, gap)
    }
}

/// Best of the cells `0..j` of row `i`.
pub open spec fn row_max(raw: Seq<u8>, q: Seq<u8>, i: int, j: int) -> int
    decreases i, j, 0int,
{
    if j <= 0 || i < 0 {
        NEG_INF as int
    } else {
        max(row_max(raw, q, i, j - 1), cell(raw, q, i, j - 1))
    }
}

/// How well `query` matches `target` as a subsequence, ignoring ASCII case; `None`
/// where it does not occur in it.
pub open spec fn score_spec(raw: Seq<u8>, q: Seq<u8>) -> Option<int> {
    if q.len() == 0 {
        Some(0)
    } else if q.len() > raw.len() {
        None
    } else {
        let best = row_max(raw, q, q.len() - 1, raw.len() as int);
        if best > NEG_INF {
            Some(best)
        } else {
            None
        }
    }
}

proof fn lemma_bounds(raw: Seq<u8>, q: Seq<u8>, i: int, j: int)
    requires
        0 <= i,
        0 <= j,
    ensures
        cell(raw, q, i, j) == NEG_INF || 16 <= cell(raw, q, i, j) <= 36 * (i + 1),
        row_max(raw, q, i, j) == NEG_INF || 16 <= row_max(raw, q, i, j) <= 36 * (i + 1),
    decreases i, j,
{
    if i > 0 {
        lemma_bounds(raw, q, i - 1, j);
        if j > 0 {
            lemma_bounds(raw, q, i - 1, j - 1);
        }
    }
    if j > 0 {
        lemma_bounds(raw, q, i, j - 1);
    }
}

fn lower_exec(b: u8) -> (r: u8)
    ensures
        r == lower(b),
{
    if 65 <= b && b <= 90 {
        b + 32
    } else {
        b
    }
}

fn bonus_exec(raw: &[u8], j: usize) -> (r: i32)
    requires
        j < raw.len(),
    ensures
        r == bonus(raw@, j as int),
{
    if j == 0 {
        return BONUS_BOUNDARY * FIRST_CHAR_MULTIPLIER;
    }
    let prev = raw[j - 1];
    let curr = raw[j];
    if prev == 45 || prev == 95 || prev == 47 || prev == 46 {
        BONUS_BOUNDARY
    } else if (65 <= curr && curr <= 90) && !(65 <= prev && prev <= 90) {
        BONUS_CAMEL
    } else {
        0
    }
}

/// Longest query, in characters, that [`score`] takes.
pub const MAX_QUERY_CHARS: usize = 14913080;

/// A text of `n` characters takes at most `4 * n` bytes in UTF-8.
pub proof fn lemma_utf8_len(s: Seq<char>)
    ensures
        vstd::utf8::encode_utf8(s).len() <= 4 * s.len(),
    decreases s.len(),
{
    if s.len() > 0 {
        lemma_utf8_len(s.drop_first());
    }
}

/// Scores `query` against `target` for fuzzy search: `None` where the query is not a
/// subsequence of the target (ignoring ASCII case), else a score that favours
/// consecutive matches and matches at word boundaries.
pub fn score(target: &str, query: &str) -> (r: Option<i32>)
    requires
        query@.len() <= MAX_QUERY_CHARS,
    ensures
        match score_spec(target.spec_bytes(), query.spec_bytes()) {
            Some(s) => r == Some(s as i32) && NEG_INF < s <= i32::MAX,
            None => r is None,
        },
{
    let raw = target.as_bytes();
    let q = query.as_bytes();
    proof {
        lemma_utf8_len(query@);
    }
    let m = q.len();
    let n = raw.len();
    if m == 0 {
        return Some(0);
    }
    if m > n {
        return None;
    }
    let ghost rs = raw@;
    let ghost qs = q@;
    let mut prev: Vec<i32> = Vec::new();
    let mut j: usize = 0;
    while j < n
        invariant
            j <= n == raw@.len(),
            m == q@.len(),
            0 < m <= n,
            prev.len() == j,
            forall|k: int| 0 <= k < j ==> prev@[k] == cell(raw@, q@, 0, k),
        decreases n - j,
    {
        let l = lower_exec(raw[j]);
        if l == lower_exec(q[0]) {
            let b = bonus_exec(raw, j);
            prev.push(SCORE_MATCH + b);
        } else {
            prev.push(NEG_INF);
        }
        j += 1;
    }
    let mut i: usize = 1;
    while i < m
        invariant
            1 <= i <= m <= n,
            n == raw@.len(),
            m == q@.len(),
            m <= MAX_QUERY_LEN,
            prev.len() == n,
            forall|k: int| 0 <= k < n ==> prev@[k] == cell(raw@, q@, i - 1, k),
        decreases m - i,
    {
        let mut cur: Vec<i32> = Vec::new();
        let mut mp: i32 = NEG_INF;
        let mut j: usize = 0;
        while j < n
            invariant
                1 <= i < m <= n,
                n == raw@.len(),
                m == q@.len(),
                m <= MAX_QUERY_LEN,
                j <= n,
                prev.len() == n,
                forall|k: int| 0 <= k < n ==> prev@[k] == cell(raw@, q@, i - 1, k),
                cur.len() == j,
                forall|k: int| 0 <= k < j ==> cur@[k] == cell(raw@, q@, i as int, k),
                mp == row_max(raw@, q@, i - 1, j as int),
            decreases n - j,
        {
            proof {
                lemma_bounds(raw@, q@, i - 1, j as int);
                if j > 0 {
                    lemma_bounds(raw@, q@, i - 1, j - 1);
                }
            }
            if lower_exec(raw[j]) != lower_exec(q[i]) {
                cur.push(NEG_INF);
            } else {
                let b = bonus_exec(raw, j);
                let consec = if j > 0 && prev[j - 1] > NEG_INF {
                    prev[j - 1] + SCORE_MATCH + BONUS_CONSECUTIVE + b
                } else {
                    NEG_INF
                };
                let gap = if mp > NEG_INF {
                    mp + SCORE_MATCH + b
                } else {
                    NEG_INF
                };
                cur.push(if consec >= gap { consec } else { gap });
            }
            if prev[j] > mp {
                mp = prev[j];
            }
            j += 1;
        }
        prev = cur;
        i += 1;
    }
    let mut best: i32 = NEG_INF;
    let mut j: usize = 0;
    while j < n
        invariant
            j <= n == raw@.len(),
            m == q@.len(),
            0 < m <= n,
            prev.len() == n,
            forall|k: int| 0 <= k < n ==> prev@[k] == cell(raw@, q@, m - 1, k),
            best == row_max(raw@, q@, m - 1, j as int),
        decreases n - j,
    {
        if prev[j] > best {
            best = prev[j];
        }
        j += 1;
    }
    proof {
        lemma_bounds(raw@, q@, m - 1, n as int);
    }
    if best > NEG_INF {
        Some(best)
    } else {
        None
    }
}

proof fn lemma_query_case(raw: Seq<u8>, q1: Seq<u8>, q2: Seq<u8>, i: int, j: int)
    requires
        q1.len() == q2.len(),
        forall|k: int| 0 <= k < q1.len() ==> lower(#[trigger] q1[k]) == lower(q2[k]),
        0 <= i,
        0 <= j,
    ensures
        cell(raw, q1, i, j) == cell(raw, q2, i, j),
        row_max(raw, q1, i, j) == row_max(raw, q2, i, j),
    decreases i, j,
{
    if i > 0 {
        lemma_query_case(raw, q1, q2, i - 1, j);
        if j > 0 {
            lemma_query_case(raw, q1, q2, i - 1, j - 1);
        }
    }
    if j > 0 {
        lemma_query_case(raw, q1, q2, i, j - 1);
    }
}

/// The score does not depend on the ASCII case of the query: two queries that agree
/// up to case score the same against every target.
pub proof fn law_score_ignores_query_case(raw: Seq<u8>, q1: Seq<u8>, q2: Seq<u8>)
    requires
        q1.len() == q2.len(),
        forall|k: int| 0 <= k < q1.len() ==> lower(#[trigger] q1[k]) == lower(q2[k]),
    ensures
        score_spec(raw, q1) == score_spec(raw, q2),
{
    if q1.len() > 0 && q1.len() <= raw.len() {
        lemma_query_case(raw, q1, q2, q1.len() - 1, raw.len() as int);
    }
}

/// The bytes of `s` with ASCII upper case turned to lower case.
pub open spec fn lowered(s: Seq<u8>) -> Seq<u8> {
    s.map_values(|b: u8| lower(b))
}

/// Whether `a` occurs in `b` in order, not necessarily side by side.
pub open spec fn is_subseq(a: Seq<u8>, b: Seq<u8>) -> bool
    decreases b.len(),
{
    if a.len() == 0 {
        true
    } else if b.len() == 0 {
        false
    } else {
        is_subseq(a, b.drop_last()) || (a.last() == b.last() && is_subseq(a.drop_last(), b.drop_last()))
    }
}

proof fn lemma_subseq_len(a: Seq<u8>, b: Seq<u8>)
    requires
        is_subseq(a, b),
    ensures
        a.len() <= b.len(),
    decreases b.len(),
{
    if a.len() > 0 && b.len() > 0 {
        if is_subseq(a, b.drop_last()) {
            lemma_subseq_len(a, b.drop_last());
        } else {
            lemma_subseq_len(a.drop_last(), b.drop_last());
        }
    }
}

proof fn lemma_row_max_found(raw: Seq<u8>, q: Seq<u8>, i: int, j: int)
    requires
        0 <= i < q.len(),
        0 <= j <= raw.len(),
    ensures
        (row_max(raw, q, i, j) > NEG_INF) == is_subseq(lowered(q).take(i + 1), lowered(raw).take(j)),
    decreases i, j,
{
    let a = lowered(q).take(i + 1);
    let b = lowered(raw).take(j);
    if j == 0 {
        assert(b.len() == 0);
    } else {
        lemma_row_max_found(raw, q, i, j - 1);
        assert(b.drop_last() =~= lowered(raw).take(j - 1));
        assert(a.last() == lower(q[i]));
        assert(b.last() == lower(raw[j - 1]));
        assert(a.drop_last() =~= lowered(q).take(i));
        let c = cell(raw, q, i, j - 1);
        assert(row_max(raw, q, i, j) == max(row_max(raw, q, i, j - 1), c));
        assert(a.len() > 0 && b.len() > 0);
        assert(is_subseq(a, b) == (is_subseq(a, b.drop_last()) || (a.last() == b.last() && is_subseq(a.drop_last(), b.drop_last()))));
        if i > 0 {
            lemma_row_max_found(raw, q, i - 1, j - 1);
            if lower(raw[j - 1]) == lower(q[i]) {
                let mp = row_max(raw, q, i - 1, j - 1);
                if j - 1 > 0 {
                    let d = cell(raw, q, i - 1, j - 2);
                    assert(mp == max(row_max(raw, q, i - 1, j - 2), d));
                }
                assert(bonus(raw, j - 1) >= 0);
                assert((c > NEG_INF) == (mp > NEG_INF));
            }
        } else {
            assert(a.drop_last().len() == 0);
            assert(is_subseq(a.drop_last(), b.drop_last()));
            assert(bonus(raw, j - 1) >= 0);
            assert((c > NEG_INF) == (lower(raw[j - 1]) == lower(q[i])));
        }
    }
}

/// A query has a score against a target exactly when, ASCII case aside, it occurs in
/// the target in order.
pub proof fn law_score_exists_iff_subsequence(raw: Seq<u8>, q: Seq<u8>)
    ensures
        score_spec(raw, q) is Some <==> is_subseq(lowered(q), lowered(raw)),
{
    if q.len() > 0 {
        if q.len() > raw.len() {
            if is_subseq(lowered(q), lowered(raw)) {
                lemma_subseq_len(lowered(q), lowered(raw));
            }
        } else {
            lemma_row_max_found(raw, q, q.len() - 1, raw.len() as int);
            assert(lowered(q).take(q.len() as int) =~= lowered(q));
            assert(lowered(raw).take(raw.len() as int) =~= lowered(raw));
        }
    }
}

} // verus!
