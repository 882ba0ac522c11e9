use vstd::prelude::*;

use crate::text::{chars_of, string_of};

verus! {

/// A class of characters to draw from.
pub enum CharacterType {
    Lowercase,
    Uppercase,
    Numeric,
}

/// The characters of a class, in order.
pub open spec fn class_chars(t: CharacterType) -> Seq<char> {
    match t {
        CharacterType::Lowercase => Seq::new(26, |i: int| (97 + i) as char),
        CharacterType::Uppercase => Seq::new(26, |i: int| (65 + i) as char),
        CharacterType::Numeric => Seq::new(10, |i: int| (48 + i) as char),
    }
}

/// The characters of the classes `types`, in order, then `extra`.
pub open spec fn pool(types: Seq<CharacterType>, extra: Seq<char>) -> Seq<char>
    decreases types.len(),
{
    if types.len() == 0 {
        extra
    } else {
        class_chars(types[0]) + pool(types.drop_first(), extra)
    }
}

fn push_class(v: &mut Vec<char>, t: &CharacterType)
    ensures
        final(v)@ == old(v)@ + class_chars(*t),
{
    let (first, n): (u8, u8) = match t {
        CharacterType::Lowercase => (97, 26),
        CharacterType::Uppercase => (65, 26),
        CharacterType::Numeric => (48, 10),
    };
    let mut i: u8 = 0;
    while i < n
        invariant
            i <= n,
            (first, n) == (match *t {
                CharacterType::Lowercase => (97u8, 26u8),
                CharacterType::Uppercase => (65u8, 26u8),
                CharacterType::Numeric => (48u8, 10u8),
            }),
            v@ == old(v)@ + class_chars(*t).take(i as int),
        decreases n - i,
    {
        let c = (first + i) as char;
        v.push(c);
        assert(class_chars(*t).take(i + 1) =~= class_chars(*t).take(i as int).push(c));
        i += 1;
    }
    assert(class_chars(*t).take(n as int) =~= class_chars(*t));
}

/// A string of `length` characters drawn from the classes `character_types` and the
/// characters `additional_characters`: the character for each byte of `source` is
/// the one at the byte's value modulo the size of that pool.
pub fn generate_random_string(
    length: usize,
    character_types: &[CharacterType],
    additional_characters: &str,
    source: &[u8],
) -> (r: String)
    requires
        source.len() >= length,
        length == 0 || pool(character_types@, additional_characters@).len() > 0,
    ensures
        ({
            let p = pool(character_types@, additional_characters@);
            r@ == Seq::new(length as nat, |i: int| p[source@[i] as int % p.len() as int])
        }),
{
    let mut p: Vec<char> = Vec::new();
    let mut k: usize = 0;
    assert(character_types@.skip(0) =~= character_types@);
    assert(p@ + pool(character_types@, additional_characters@) =~= pool(character_types@, additional_characters@));
    while k < character_types.len()
        invariant
            k <= character_types.len(),
            p@ + pool(character_types@.skip(k as int), additional_characters@) == pool(
                character_types@,
                additional_characters@,
            ),
        decreases character_types.len() - k,
    {
        let ghost before = p@;
        push_class(&mut p, &character_types[k]);
        proof {
            let rest = character_types@.skip(k as int);
            assert(rest.drop_first() =~= character_types@.skip(k + 1));
            assert(before + pool(rest, additional_characters@) =~= p@ + pool(
                character_types@.skip(k + 1),
                additional_characters@,
            ));
        }
        k += 1;
    }
    let extra = chars_of(additional_characters);
    let mut j: usize = 0;
    let ghost base = p@;
    while j < extra.len()
        invariant
            j <= extra.len(),
            extra@ == additional_characters@,
            p@ == base + extra@.take(j as int),
        decreases extra.len() - j,
    {
        p.push(extra[j]);
        assert(extra@.take(j + 1) =~= extra@.take(j as int).push(extra@[j as int]));
        j += 1;
    }
    assert(character_types@.skip(character_types.len() as int) =~= Seq::<CharacterType>::empty());
    assert(extra@.take(extra.len() as int) =~= extra@);
    assert(p@ =~= pool(character_types@, additional_characters@));
    let mut out: Vec<char> = Vec::new();
    let mut i: usize = 0;
    while i < length
        invariant
            i <= length <= source.len(),
            length == 0 || p.len() > 0,
            p@ == pool(character_types@, additional_characters@),
            out@ == Seq::new(i as nat, |m: int| p@[source@[m] as int % p.len() as int]),
        decreases length - i,
    {
        let c = p[source[i] as usize % p.len()];
        out.push(c);
        assert(out@ =~= Seq::new((i + 1) as nat, |m: int| p@[source@[m] as int % p.len() as int]));
        i += 1;
    }
    string_of(out.as_slice())
}

} // verus!
