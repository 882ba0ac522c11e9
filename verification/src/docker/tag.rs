use vstd::prelude::*;

use crate::text::{chars_of, push_str, string_of, sub_chars};
use vstd::string::StringSliceAdditionalSpecFns;
use vstd::utf8::encode_utf8;

verus! {

/// What `str::to_lowercase` makes of a text: each character by its Unicode lowercase mapping.
pub uninterp spec fn lowercase(s: Seq<char>) -> Seq<char>;

/// The text in lower case, by the Unicode case mapping of `str::to_lowercase`.
#[verifier::external_body]
pub(crate) fn to_lowercase(s: &str) -> (r: String)
    ensures
        r@ == lowercase(s@),
{
    s.to_lowercase()
}

pub const FNV_OFFSET: u64 = 14695981039346656037;
pub const FNV_PRIME: u64 = 1099511628211;

/// The 64-bit FNV-1a hash of `bytes[..n]`.
pub open spec fn fnv1a(bytes: Seq<u8>, n: int) -> u64
    decreases n,
{
    if n <= 0 {
        FNV_OFFSET
    } else {
        vstd::wrapping::u64_specs::wrapping_mul(fnv1a(bytes, n - 1) ^ (bytes[n - 1] as u64), FNV_PRIME)
    }
}

fn fnv1a_exec(b: &[u8]) -> (h: u64)
    ensures
        h == fnv1a(b@, b.len() as int),
{
    let mut h: u64 = FNV_OFFSET;
    let mut i: usize = 0;
    while i < b.len()
        invariant
            i <= b.len(),
            h == fnv1a(b@, i as int),
        decreases b.len() - i,
    {
        h = (h ^ (b[i] as u64)).wrapping_mul(FNV_PRIME);
        i += 1;
    }
    h
}

pub open spec fn hex_char(d: nat) -> char {
    if d < 10 {
        (48 + d) as char
    } else {
        (87 + d) as char
    }
}

/// The last `k` hexadecimal digits of `n`, zero-padded.
pub open spec fn hex_digits(n: nat, k: nat) -> Seq<char>
    decreases k,
{
    if k == 0 {
        Seq::empty()
    } else {
        hex_digits(n / 16, (k - 1) as nat).push(hex_char(n % 16))
    }
}

fn push_hex16(out: &mut Vec<char>, h: u64)
    ensures
        final(out)@ == old(out)@ + hex_digits(h as nat, 16),
{
    let mut digits: Vec<char> = Vec::new();
    let mut k: usize = 0;
    let mut n: u64 = h;
    assert(pow16(0) == 1);
    assert(h as nat / 1 == h as nat);
    while k < 16
        invariant
            k <= 16,
            digits.len() == k,
            forall|j: int| 0 <= j < k ==> #[trigger] digits@[j] == hex_char(
                (h as nat / pow16(j as nat)) % 16,
            ),
            n as nat == h as nat / pow16(k as nat),
        decreases 16 - k,
    {
        let d = n % 16;
        let c = if d < 10 { (48 + d as u8) as char } else { (87 + d as u8) as char };
        digits.push(c);
        proof {
            lemma_pow16_div(h as nat, k as nat);
        }
        n = n / 16;
        k += 1;
    }
    let ghost start = out@;
    let mut j: usize = 16;
    while j > 0
        invariant
            j <= 16,
            digits.len() == 16,
            forall|i: int| 0 <= i < 16 ==> #[trigger] digits@[i] == hex_char(
                (h as nat / pow16(i as nat)) % 16,
            ),
            out@ == start + hex_digits(h as nat / pow16(j as nat), (16 - j) as nat),
        decreases j,
    {
        out.push(digits[j - 1]);
        proof {
            lemma_pow16_div(h as nat, (j - 1) as nat);
            lemma_hex_digits_step(h as nat, (j - 1) as nat);
        }
        j -= 1;
    }
}

pub open spec fn pow16(k: nat) -> nat
    decreases k,
{
    if k == 0 {
        1
    } else {
        16 * pow16((k - 1) as nat)
    }
}

proof fn lemma_pow16_pos(k: nat)
    ensures
        pow16(k) >= 1,
    decreases k,
{
    if k > 0 {
        lemma_pow16_pos((k - 1) as nat);
    }
}

proof fn lemma_pow16_div(n: nat, k: nat)
    ensures
        n / pow16(k) / 16 == n / pow16(k + 1),
{
    lemma_pow16_pos(k);
    assert(pow16(k + 1) == 16 * pow16(k));
    vstd::arithmetic::div_mod::lemma_div_denominator(n as int, pow16(k) as int, 16);
    assert(pow16(k) * 16 == 16 * pow16(k)) by (nonlinear_arith);
}

proof fn lemma_hex_unfold(x: nat, k: nat)
    requires
        k > 0,
    ensures
        hex_digits(x, k) == hex_digits(x / 16, (k - 1) as nat).push(hex_char(x % 16)),
{
}

proof fn lemma_hex_digits_step(h: nat, j: nat)
    ensures
        hex_digits(h / pow16(j), (16 - j) as nat) == hex_digits(h / pow16(j + 1), (16 - (j + 1)) as nat).push(
            hex_char((h / pow16(j)) % 16),
        ) || j >= 16,
{
    if j < 16 {
        lemma_pow16_div(h, j);
        let x = h / pow16(j);
        let k = (16 - j) as nat;
        assert(k > 0);
        lemma_hex_unfold(x, k);
        assert(hex_digits(x, k) == hex_digits(x / 16, (k - 1) as nat).push(hex_char(x % 16)));
        assert((k - 1) as nat == (16 - (j + 1)) as nat);
    }
}

/// The last component of a path, as `Path::file_name` has it: empty components and
/// `.` are skipped, and there is none where the path ends in `..` or has no component.
pub open spec fn file_name(p: Seq<char>) -> Option<Seq<char>> {
    match last_component(p, p.len() as int) {
        Some(c) => if c == ".."@ {
            None
        } else {
            Some(c)
        },
        None => None,
    }
}

/// End of `p[..n]` without its trailing slashes.
pub open spec fn trim_slashes(p: Seq<char>, n: int) -> int
    decreases n,
{
    if 0 < n <= p.len() && p[n - 1] == '/' {
        trim_slashes(p, n - 1)
    } else {
        n
    }
}

/// Start of the component that ends at `e`.
pub open spec fn component_start(p: Seq<char>, e: int) -> int
    decreases e,
{
    if 0 < e <= p.len() && p[e - 1] != '/' {
        component_start(p, e - 1)
    } else {
        e
    }
}

/// The last component of `p[..n]` other than `.`.
pub open spec fn last_component(p: Seq<char>, n: int) -> Option<Seq<char>>
    decreases n,
{
    let e = trim_slashes(p, n);
    if e <= 0 || e > p.len() {
        None
    } else {
        let b = component_start(p, e);
        if 0 <= b < e <= n && p.subrange(b, e) == "."@ {
            last_component(p, b)
        } else if 0 <= b < e {
            Some(p.subrange(b, e))
        } else {
            None
        }
    }
}

proof fn lemma_trim_slashes(p: Seq<char>, n: int)
    requires
        0 <= n <= p.len(),
    ensures
        0 <= trim_slashes(p, n) <= n,
    decreases n,
{
    if n > 0 {
        lemma_trim_slashes(p, n - 1);
    }
}

proof fn lemma_component_start(p: Seq<char>, e: int)
    requires
        0 <= e <= p.len(),
    ensures
        0 <= component_start(p, e) <= e,
    decreases e,
{
    if e > 0 {
        lemma_component_start(p, e - 1);
    }
}

pub fn file_name_exec(p: &Vec<char>) -> (r: Option<Vec<char>>)
    ensures
        match file_name(p@) {
            Some(c) => r matches Some(v) && v@ == c,
            None => r is None,
        },
{
    let mut n = p.len();
    let dot = chars_of(".");
    let dots = chars_of("..");
    loop
        invariant
            n <= p.len(),
            dot@ == "."@,
            dots@ == ".."@,
            last_component(p@, p.len() as int) == last_component(p@, n as int),
        decreases n,
    {
        let mut e = n;
        while e > 0 && p[e - 1] == '/'
            invariant
                e <= n <= p.len(),
                trim_slashes(p@, n as int) == trim_slashes(p@, e as int),
            decreases e,
        {
            e -= 1;
        }
        if e == 0 {
            return None;
        }
        let mut b = e;
        while b > 0 && p[b - 1] != '/'
            invariant
                b <= e <= p.len(),
                component_start(p@, e as int) == component_start(p@, b as int),
            decreases b,
        {
            b -= 1;
        }
        let c = sub_chars(p, b, e);
        if c.len() == 1 && c[0] == '.' {
            assert(c@ =~= "."@) by {
                reveal_strlit(".");
            }
            n = b;
        } else {
            proof {
                reveal_strlit(".");
                if c@ == "."@ {
                    assert(c@[0] == '.');
                }
            }
            if c.len() == 2 && c[0] == '.' && c[1] == '.' {
                assert(c@ =~= ".."@) by {
                    reveal_strlit("..");
                }
                return None;
            }
            proof {
                reveal_strlit("..");
                if c@ == ".."@ {
                    assert(c@[0] == '.' && c@[1] == '.');
                }
            }
            return Some(c);
        }
    }
}

pub open spec fn is_tag_char(c: char) -> bool {
    ('a' <= c && c <= 'z') || ('0' <= c && c <= '9') || c == '.' || c == '_' || c == '-'
}

/// The characters of `s` that may stand in an image name.
pub open spec fn tag_chars(s: Seq<char>) -> Seq<char>
    decreases s.len(),
{
    if s.len() == 0 {
        Seq::empty()
    } else {
        tag_chars(s.drop_last()) + if is_tag_char(s.last()) {
            seq![s.last()]
        } else {
            Seq::<char>::empty()
        }
    }
}

/// `s` without the dots and hyphens at its start.
pub open spec fn trim_dots(s: Seq<char>) -> Seq<char>
    decreases s.len(),
{
    if s.len() > 0 && (s[0] == '.' || s[0] == '-') {
        trim_dots(s.drop_first())
    } else {
        s
    }
}

/// The name part of an image tag for a folder.
pub open spec fn tag_name(folder: Seq<char>) -> Seq<char> {
    let raw = match file_name(folder) {
        Some(n) => lowercase(n),
        None => lowercase(Seq::empty()),
    };
    let name = trim_dots(tag_chars(raw));
    if name.len() == 0 {
        "workspace"@
    } else {
        name
    }
}

/// The image tag for a workspace folder: `vsc-`, the folder's name (lower case, with
/// only `a-z`, `0-9`, `.`, `_` and `-` kept, and no leading `.` or `-`; `workspace`
/// where nothing is left), `-` and the FNV-1a hash of the lower-cased path in 16
/// hexadecimal digits.
pub open spec fn image_tag_of(folder: Seq<char>) -> Seq<char> {
    let bytes = encode_utf8(lowercase(folder));
    "vsc-"@ + tag_name(folder) + "-"@ + hex_digits(fnv1a(bytes, bytes.len() as int) as nat, 16)
}

/// The image tag for the workspace folder `local_folder`.
pub fn image_tag(local_folder: &str) -> (r: String)
    ensures
        r@ == image_tag_of(local_folder@),
{
    let p = chars_of(local_folder);
    let name_chars = match file_name_exec(&p) {
        Some(c) => c,
        None => Vec::new(),
    };
    let raw = to_lowercase(string_of(name_chars.as_slice()).as_str());
    let rv = chars_of(raw.as_str());
    let mut kept: Vec<char> = Vec::new();
    let mut i: usize = 0;
    while i < rv.len()
        invariant
            i <= rv.len(),
            kept@ == tag_chars(rv@.take(i as int)),
        decreases rv.len() - i,
    {
        let c = rv[i];
        if ('a' <= c && c <= 'z') || ('0' <= c && c <= '9') || c == '.' || c == '_' || c == '-' {
            kept.push(c);
        }
        assert(rv@.take(i + 1).drop_last() =~= rv@.take(i as int));
        i += 1;
    }
    assert(rv@.take(rv.len() as int) =~= rv@);
    let mut s: usize = 0;
    assert(kept@.skip(0) =~= kept@);
    while s < kept.len() && (kept[s] == '.' || kept[s] == '-')
        invariant
            s <= kept.len(),
            trim_dots(kept@) == trim_dots(kept@.skip(s as int)),
        decreases kept.len() - s,
    {
        assert(kept@.skip(s as int).drop_first() =~= kept@.skip(s + 1));
        s += 1;
    }
    let name = sub_chars(&kept, s, kept.len());
    assert(name@ =~= kept@.skip(s as int));
    let lower_path = to_lowercase(local_folder);
    let h = fnv1a_exec(lower_path.as_str().as_bytes());
    let mut out: Vec<char> = Vec::new();
    push_str(&mut out, "vsc-");
    if name.len() == 0 {
        push_str(&mut out, "workspace");
    } else {
        let ghost before = out@;
        crate::text::push_all(&mut out, name.as_slice());
    }
    push_str(&mut out, "-");
    push_hex16(&mut out, h);
    proof {
        reveal_strlit("");
        if name@.len() > 0 {
            assert(trim_dots(kept@) == name@);
        }
    }
    assert(out@ =~= image_tag_of(local_folder@));
    string_of(out.as_slice())
}

} // verus!
