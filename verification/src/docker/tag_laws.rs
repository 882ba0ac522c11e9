use vstd::prelude::*;

use vstd::utf8::encode_utf8;
use super::tag::{fnv1a, hex_char, hex_digits, image_tag_of, lowercase};

verus! {

/// `16` to the power `k`.
pub open spec fn pow16(k: nat) -> nat
    decreases k,
{
    if k == 0 {
        1
    } else {
        16 * pow16((k - 1) as nat)
    }
}

/// `k` hexadecimal digits are `k` characters.
proof fn lemma_hex_digits_len(n: nat, k: nat)
    ensures
        hex_digits(n, k).len() == k,
    decreases k,
{
    if k > 0 {
        lemma_hex_digits_len(n / 16, (k - 1) as nat);
    }
}

/// Different digit values are written as different characters.
proof fn lemma_hex_char_injective(d: nat, e: nat)
    requires
        d < 16,
        e < 16,
        hex_char(d) == hex_char(e),
    ensures
        d == e,
{
    assert(hex_char(d) as int == if d < 10 { 48 + d } else { 87 + d });
    assert(hex_char(e) as int == if e < 10 { 48 + e } else { 87 + e });
}

/// Numbers below `16^k` with the same `k` hexadecimal digits are the same number.
proof fn lemma_hex_digits_injective(n: nat, m: nat, k: nat)
    requires
        n < pow16(k),
        m < pow16(k),
        hex_digits(n, k) == hex_digits(m, k),
    ensures
        n == m,
    decreases k,
{
    if k == 0 {
        assert(pow16(0) == 1);
    } else {
        let hn = hex_digits(n, k);
        let hm = hex_digits(m, k);
        lemma_hex_digits_len(n / 16, (k - 1) as nat);
        lemma_hex_digits_len(m / 16, (k - 1) as nat);
        assert(hn.last() == hex_char(n % 16));
        assert(hm.last() == hex_char(m % 16));
        lemma_hex_char_injective(n % 16, m % 16);
        assert(hn.drop_last() =~= hex_digits(n / 16, (k - 1) as nat));
        assert(hm.drop_last() =~= hex_digits(m / 16, (k - 1) as nat));
        let p = pow16((k - 1) as nat);
        assert(n / 16 < p) by (nonlinear_arith)
            requires
                n < 16 * p,
        ;
        assert(m / 16 < p) by (nonlinear_arith)
            requires
                m < 16 * p,
        ;
        lemma_hex_digits_injective(n / 16, m / 16, (k - 1) as nat);
    }
}

/// The hash the image tag of a folder ends in: FNV-1a of the UTF-8 bytes of the whole
/// path in lower case.
pub open spec fn path_hash(folder: Seq<char>) -> u64 {
    let bytes = encode_utf8(lowercase(folder));
    fnv1a(bytes, bytes.len() as int)
}

/// The image tag of a workspace folder ends in the FNV-1a hash of its whole path in
/// lower case, in 16 hexadecimal digits.
pub proof fn law_tag_ends_in_path_hash(folder: Seq<char>)
    ensures
        image_tag_of(folder).len() >= 16,
        image_tag_of(folder).skip(image_tag_of(folder).len() - 16) == hex_digits(path_hash(folder) as nat, 16),
{
    let h = hex_digits(path_hash(folder) as nat, 16);
    lemma_hex_digits_len(path_hash(folder) as nat, 16);
    let t = image_tag_of(folder);
    assert(t.skip(t.len() - 16) =~= h);
}

/// Workspaces whose lower-cased paths hash differently get different image tags,
/// though their folders have the same name: the tag tells them apart by the whole path.
pub proof fn law_tags_differ_by_path(a: Seq<char>, b: Seq<char>)
    requires
        path_hash(a) != path_hash(b),
    ensures
        image_tag_of(a) != image_tag_of(b),
{
    law_tag_ends_in_path_hash(a);
    law_tag_ends_in_path_hash(b);
    if image_tag_of(a) == image_tag_of(b) {
        assert(pow16(16) == 0x10000000000000000) by {
            reveal_with_fuel(pow16, 17);
        }
        lemma_hex_digits_injective(path_hash(a) as nat, path_hash(b) as nat, 16);
    }
}

} // verus!
