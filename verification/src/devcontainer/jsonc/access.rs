use vstd::prelude::*;

use super::model::{lemma_array_view, lemma_object_view, JsonValue, Value};
use super::number::{Number, NumberModel};
use crate::text::{lemma_text_lt_total, same_text, text_less, text_lt};

verus! {

/// The index of the last member of an object whose key is `key`.
pub open spec fn last_key_index(keys: Seq<Seq<char>>, key: Seq<char>, n: int) -> Option<int>
    decreases n,
{
    if n <= 0 {
        None
    } else if keys[n - 1] == key {
        Some(n - 1)
    } else {
        last_key_index(keys, key, n - 1)
    }
}

/// The value of the last member named `key`, where `v` is an object.
pub open spec fn member(v: JsonValue, key: Seq<char>) -> Option<JsonValue> {
    match v {
        JsonValue::Object(keys, values) => match last_key_index(keys, key, keys.len() as int) {
            Some(i) => Some(values[i]),
            None => None,
        },
        _ => None,
    }
}

pub proof fn lemma_last_key_index_pub(keys: Seq<Seq<char>>, key: Seq<char>, n: int)
    requires
        n <= keys.len(),
    ensures
        last_key_index(keys, key, n) matches Some(i) ==> 0 <= i < n && keys[i] == key,
{
    lemma_last_key_index(keys, key, n);
}

proof fn lemma_last_key_index(keys: Seq<Seq<char>>, key: Seq<char>, n: int)
    requires
        n <= keys.len(),
    ensures
        last_key_index(keys, key, n) matches Some(i) ==> 0 <= i < n && keys[i] == key,
    decreases n,
{
    if n > 0 {
        lemma_last_key_index(keys, key, n - 1);
    }
}

/// Ten to the power `e`.
pub open spec fn pow10(e: nat) -> nat
    decreases e,
{
    if e == 0 {
        1
    } else {
        10 * pow10((e - 1) as nat)
    }
}

/// The integer that a digit string spells.
pub open spec fn digits_value(d: Seq<u8>) -> nat
    decreases d.len(),
{
    if d.len() == 0 {
        0
    } else {
        digits_value(d.drop_last()) * 10 + d.last() as nat
    }
}

/// The number as a `u64`, where it is a whole number from 0 up to `u64::MAX`.
pub open spec fn number_u64(m: NumberModel) -> Option<u64> {
    if m.digits.len() == 0 {
        Some(0)
    } else if m.negative || m.exponent < 0 {
        None
    } else {
        let v = digits_value(m.digits) * pow10(m.exponent as nat);
        if v <= u64::MAX {
            Some(v as u64)
        } else {
            None
        }
    }
}

proof fn lemma_pow10_grows(a: nat, b: nat)
    requires
        a <= b,
    ensures
        pow10(a) <= pow10(b),
        pow10(a) >= 1,
    decreases b,
{
    if b > a {
        lemma_pow10_grows(a, (b - 1) as nat);
    } else if a > 0 {
        lemma_pow10_grows((a - 1) as nat, (a - 1) as nat);
    }
}

proof fn lemma_digits_value_lower(d: Seq<u8>)
    requires
        d.len() > 0,
        d[0] != 0,
        forall|i: int| 0 <= i < d.len() ==> #[trigger] d[i] < 10,
    ensures
        digits_value(d) >= pow10((d.len() - 1) as nat),
        digits_value(d) < pow10(d.len() as nat),
    decreases d.len(),
{
    if d.len() == 1 {
        assert(pow10(0) == 1);
        assert(pow10(1) == 10 * pow10(0));
        assert(digits_value(d.drop_last()) == 0);
        assert(digits_value(d) == d[0] as nat);
        assert(d[0] < 10);
    } else {
        let p = d.drop_last();
        assert(p[0] == d[0]);
        lemma_digits_value_lower(p);
        let a = digits_value(p);
        let b = pow10(p.len() as nat);
        assert(pow10(d.len() as nat) == 10 * b);
        assert(pow10((d.len() - 1) as nat) == b);
        assert(digits_value(d) == a * 10 + d.last() as nat);
        assert(a * 10 + 9 < 10 * b) by (nonlinear_arith)
            requires a < b;
        assert(a * 10 >= b) by (nonlinear_arith)
            requires a >= pow10((p.len() - 1) as nat), b == 10 * pow10((p.len() - 1) as nat);
    }
}

impl Number {
    /// This number as a `u64`, where it is a whole number that fits.
    pub fn to_u64(&self) -> (r: Option<u64>)
        ensures
            r == number_u64(self@),
    {
        let d = self.digits_ref();
        let e = self.exponent_value();
        if d.len() == 0 {
            return Some(0);
        }
        if self.is_negative() || e < 0 {
            return None;
        }
        if e > 20 || d.len() > 20 {
            proof {
                let l1 = (d@.len() - 1) as nat;
                let en = e as nat;
                lemma_digits_value_lower(d@);
                lemma_pow10_mul(l1, en);
                lemma_pow10_grows(20, l1 + en);
                lemma_pow10_values();
                assert(digits_value(d@) * pow10(en) >= pow10(l1) * pow10(en)) by (nonlinear_arith)
                    requires digits_value(d@) >= pow10(l1);
            }
            return None;
        }
        let mut v: u128 = 0;
        let mut i: usize = 0;
        while i < d.len()
            invariant
                i <= d.len() <= 20,
                v == digits_value(d@.take(i as int)),
                v < pow10(i as nat),
                forall|k: int| 0 <= k < d.len() ==> #[trigger] d@[k] < 10,
            decreases d.len() - i,
        {
            proof {
                assert(d@.take(i + 1).drop_last() =~= d@.take(i as int));
                lemma_pow10_grows(i as nat, 20);
                lemma_pow10_values();
            }
            v = v * 10 + d[i] as u128;
            i += 1;
        }
        assert(d@.take(d.len() as int) =~= d@);
        let mut k: i128 = 0;
        let mut p: u128 = 1;
        proof { lemma_pow10_grows(0, 20); }
        while k < e
            invariant
                0 <= k <= e <= 20,
                p == pow10(k as nat),
                p <= pow10(20),
            decreases e - k,
        {
            proof {
                lemma_pow10_grows((k + 1) as nat, 20);
                lemma_pow10_values();
            }
            p = p * 10;
            k += 1;
        }
        proof {
            lemma_pow10_grows(d@.len() as nat, 20);
            lemma_pow10_grows(e as nat, 20);
            lemma_pow10_values();
        }
        if v > 0xFFFF_FFFF_FFFF_FFFF {
            proof {
                lemma_pow10_grows(0, e as nat);
                assert(v * p >= v) by (nonlinear_arith) requires p >= 1;
            }
            return None;
        }
        if p > 0xFFFF_FFFF_FFFF_FFFF {
            proof {
                assert(digits_value(d@) >= 1) by {
                    lemma_digits_value_lower(d@);
                    lemma_pow10_grows(0, (d@.len() - 1) as nat);
                }
                assert(v * p >= p) by (nonlinear_arith) requires v >= 1;
            }
            return None;
        }
        proof {
            assert(v * p <= 0xFFFF_FFFF_FFFF_FFFFu128 * 0xFFFF_FFFF_FFFF_FFFFu128) by (nonlinear_arith)
                requires v <= 0xFFFF_FFFF_FFFF_FFFFu128, p <= 0xFFFF_FFFF_FFFF_FFFFu128;
        }
        let t = v * p;
        if t > 0xFFFF_FFFF_FFFF_FFFF {
            None
        } else {
            Some(t as u64)
        }
    }
}

proof fn lemma_pow10_values()
    ensures
        pow10(19) == 10000000000000000000,
        pow10(20) == 100000000000000000000,
{
    reveal_with_fuel(pow10, 21);
}

proof fn lemma_pow10_mul(a: nat, b: nat)
    ensures
        pow10(a + b) == pow10(a) * pow10(b),
    decreases a,
{
    if a > 0 {
        let a1 = (a - 1) as nat;
        lemma_pow10_mul(a1, b);
        let x = pow10(a1);
        let y = pow10(b);
        assert(pow10(a) == 10 * x);
        assert((a1 + b) as nat == (a + b - 1) as nat);
        assert(pow10(a + b) == 10 * pow10(a1 + b));
        assert(10 * (x * y) == (10 * x) * y) by (nonlinear_arith);
    } else {
        assert(pow10(0) == 1);
        assert(a + b == b);
    }
}

impl Value {
    /// The text of a string value.
    pub fn as_str(&self) -> (r: Option<&str>)
        ensures
            match self@ {
                JsonValue::Str(s) => r matches Some(t) && t@ == s,
                _ => r is None,
            },
    {
        match self {
            Value::String(s) => Some(s.as_str()),
            _ => None,
        }
    }

    /// A whole, non-negative number that fits a `u64`.
    pub fn as_u64(&self) -> (r: Option<u64>)
        ensures
            match self@ {
                JsonValue::Number(m) => r == number_u64(m),
                _ => r is None,
            },
    {
        match self {
            Value::Number(n) => n.to_u64(),
            _ => None,
        }
    }

    /// The items of an array value.
    pub fn as_array(&self) -> (r: Option<&[Value]>)
        ensures
            match self@ {
                JsonValue::Array(items) => r matches Some(a) && a.len() == items.len() && forall|i: int|
                    0 <= i < a.len() ==> #[trigger] a@[i]@ == items[i],
                _ => r is None,
            },
    {
        proof { lemma_array_view(*self); }
        match self {
            Value::Array(items) => Some(items.as_slice()),
            _ => None,
        }
    }

    /// The members of an object value, in order.
    pub fn as_object(&self) -> (r: Option<&[(String, Value)]>)
        ensures
            match self@ {
                JsonValue::Object(keys, values) => r matches Some(a) && a.len() == keys.len() && forall|i: int|
                    #![trigger a@[i]] 0 <= i < a.len() ==> a@[i].0@ == keys[i] && a@[i].1@ == values[i],
                _ => r is None,
            },
    {
        proof { lemma_object_view(*self); }
        match self {
            Value::Object(members) => Some(members.as_slice()),
            _ => None,
        }
    }

    /// The value of the last member named `key`, where this is an object.
    #[verifier::loop_isolation(false)]
    pub fn get(&self, key: &str) -> (r: Option<&Value>)
        ensures
            match member(self@, key@) {
                Some(v) => r matches Some(x) && x@ == v,
                None => r is None,
            },
    {
        proof { lemma_object_view(*self); }
        match self {
            Value::Object(members) => {
                let ghost keys = Seq::new(members.len() as nat, |i: int| members@[i].0@);
                proof {
                    if let JsonValue::Object(k, x) = self@ {
                        assert(k =~= keys);
                    }
                }
                let mut n = members.len();
                while n > 0
                    invariant
                        n <= members.len(),
                        keys == Seq::new(members.len() as nat, |i: int| members@[i].0@),
                        last_key_index(keys, key@, members.len() as int) == last_key_index(keys, key@, n as int),
                    decreases n,
                {
                    if same_text(members[n - 1].0.as_str(), key) {
                        proof {
                            assert(keys[n - 1] == key@);
                            assert(last_key_index(keys, key@, n as int) == Some(n - 1));
                            lemma_object_view(*self);
                            if let JsonValue::Object(k, x) = self@ {
                                assert(k =~= keys);
                                assert(member(self@, key@) == Some(x[n - 1]));
                                assert(x[n - 1] == members@[n - 1].1@);
                            }
                        }
                        return Some(&members[n - 1].1);
                    }
                    n -= 1;
                }
                None
            },
            _ => None,
        }
    }
}

/// A map from keys to strings, each key once.
#[derive(Debug, PartialEq, Clone)]
pub struct StringMap {
    entries: Vec<(String, String)>,
}

/// The map that results from setting the first `n` keys to their texts in order.
pub open spec fn pairs_map(keys: Seq<Seq<char>>, texts: Seq<Seq<char>>, n: int) -> Map<Seq<char>, Seq<char>>
    decreases n,
{
    if n <= 0 {
        Map::empty()
    } else {
        pairs_map(keys, texts, n - 1).insert(keys[n - 1], texts[n - 1])
    }
}

impl View for StringMap {
    type V = Map<Seq<char>, Seq<char>>;

    closed spec fn view(&self) -> Map<Seq<char>, Seq<char>> {
        Map::new(
            |k: Seq<char>| exists|i: int| 0 <= i < self.entries.len() && self.entries@[i].0@ == k,
            |k: Seq<char>| self.entries@[choose|i: int| 0 <= i < self.entries.len() && self.entries@[i].0@ == k].1@,
        )
    }
}

impl Default for StringMap {
    fn default() -> (r: StringMap)
        ensures
            r.wf(),
            r@ == Map::<Seq<char>, Seq<char>>::empty(),
    {
        StringMap::new()
    }
}

impl StringMap {
    /// Each key occurs once.
    pub closed spec fn wf(&self) -> bool {
        &&& forall|i: int, j: int|
            0 <= i < j < self.entries.len() ==> #[trigger] self.entries@[i].0@ != #[trigger] self.entries@[j].0@
        &&& forall|i: int| 0 <= i < self.entries.len() - 1 ==> text_lt(#[trigger] self.entries@[i].0@, self.entries@[i + 1].0@)
    }

    /// The entries in the order of their keys.
    pub closed spec fn listing(&self) -> Seq<(Seq<char>, Seq<char>)> {
        Seq::new(self.entries.len() as nat, |i: int| (self.entries@[i].0@, self.entries@[i].1@))
    }

    /// The listing holds each key of the map once, with its string, each key before
    /// the next in the order of `str`.
    pub proof fn lemma_listing(&self)
        requires
            self.wf(),
        ensures
            forall|i: int| 0 <= i < self.listing().len() - 1 ==> text_lt(#[trigger] self.listing()[i].0, self.listing()[i + 1].0),
            forall|i: int, j: int| 0 <= i < j < self.listing().len() ==> #[trigger] self.listing()[i].0 != #[trigger] self.listing()[j].0,
            forall|i: int| 0 <= i < self.listing().len() ==> self@.contains_key(#[trigger] self.listing()[i].0)
                && self@[self.listing()[i].0] == self.listing()[i].1,
            forall|k: Seq<char>| self@.contains_key(k) ==> exists|i: int| 0 <= i < self.listing().len() && #[trigger] self.listing()[i].0 == k,
    {
        assert forall|i: int| 0 <= i < self.listing().len() implies self@.contains_key(#[trigger] self.listing()[i].0)
            && self@[self.listing()[i].0] == self.listing()[i].1 by {
            let q = self.entries@[i].0@;
            assert(self@.contains_key(q));
            let c = choose|j: int| 0 <= j < self.entries.len() && self.entries@[j].0@ == q;
            if c != i {
                if c < i {
                    assert(self.entries@[c].0@ != self.entries@[i].0@);
                } else {
                    assert(self.entries@[i].0@ != self.entries@[c].0@);
                }
            }
        }
        assert forall|k: Seq<char>| self@.contains_key(k) implies exists|i: int| 0 <= i < self.listing().len() && #[trigger] self.listing()[i].0 == k by {
            let c = choose|j: int| 0 <= j < self.entries.len() && self.entries@[j].0@ == k;
            assert(self.listing()[c].0 == k);
        }
        assert forall|i: int, j: int| 0 <= i < j < self.listing().len() implies #[trigger] self.listing()[i].0 != #[trigger] self.listing()[j].0 by {
            assert(self.entries@[i].0@ != self.entries@[j].0@);
        }
    }

    /// Sets every key of `other` to its string there.
    pub fn merge_from(&mut self, other: &StringMap)
        requires
            old(self).wf(),
            other.wf(),
        ensures
            final(self).wf(),
            final(self)@ == old(self)@.union_prefer_right(other@),
    {
        proof { other.lemma_listing(); }
        let ghost l = other.listing();
        let entries = other.entries();
        let mut i: usize = 0;
        while i < entries.len()
            invariant
                i <= entries.len(),
                self.wf(),
                l == other.listing(),
                entries.len() == l.len(),
                forall|j: int| 0 <= j < entries.len() ==> (#[trigger] entries@[j].0@, entries@[j].1@) == l[j],
                forall|a: int, b: int| 0 <= a < b < l.len() ==> #[trigger] l[a].0 != #[trigger] l[b].0,
                forall|k: Seq<char>| #[trigger] self@.contains_key(k) <==> (old(self)@.contains_key(k)
                    || exists|a: int| 0 <= a < i && l[a].0 == k),
                forall|a: int| 0 <= a < i ==> self@[#[trigger] l[a].0] == l[a].1,
                forall|k: Seq<char>| #[trigger] self@.contains_key(k) && !(exists|a: int| 0 <= a < i && l[a].0 == k)
                    ==> self@[k] == old(self)@[k],
            decreases entries.len() - i,
        {
            let ghost before = self@;
            proof { let _ = entries@[i as int]; }
            self.insert(entries[i].0.clone(), entries[i].1.clone());
            proof {
                let k = l[i as int].0;
                assert forall|a: int| 0 <= a < i + 1 implies self@[#[trigger] l[a].0] == l[a].1 by {
                    if a < i {
                        assert(l[a].0 != k);
                    }
                }
                assert forall|q: Seq<char>| #[trigger] self@.contains_key(q) <==> (old(self)@.contains_key(q)
                    || exists|a: int| 0 <= a < i + 1 && l[a].0 == q) by {
                    if q == k {
                        assert(l[i as int].0 == q);
                    }
                    if exists|a: int| 0 <= a < i + 1 && l[a].0 == q {
                        let a = choose|a: int| 0 <= a < i + 1 && l[a].0 == q;
                        if a < i {
                            assert(before.contains_key(q));
                        }
                    }
                }
                assert forall|q: Seq<char>| #[trigger] self@.contains_key(q) && !(exists|a: int| 0 <= a < i + 1 && l[a].0 == q)
                    implies self@[q] == old(self)@[q] by {
                    assert(q != k);
                }
            }
            i += 1;
        }
        proof {
            assert forall|q: Seq<char>| #[trigger] self@.contains_key(q) == old(self)@.union_prefer_right(other@).contains_key(q) by {
                if other@.contains_key(q) {
                    let a = choose|a: int| 0 <= a < l.len() && #[trigger] l[a].0 == q;
                }
                if exists|a: int| 0 <= a < l.len() && l[a].0 == q {
                    let a = choose|a: int| 0 <= a < l.len() && l[a].0 == q;
                    assert(other@.contains_key(l[a].0));
                }
            }
            assert forall|q: Seq<char>| #[trigger] self@.contains_key(q) implies self@[q] == old(self)@.union_prefer_right(other@)[q] by {
                if other@.contains_key(q) {
                    let a = choose|a: int| 0 <= a < l.len() && #[trigger] l[a].0 == q;
                    assert(other@[l[a].0] == l[a].1);
                } else {
                    if exists|a: int| 0 <= a < l.len() && l[a].0 == q {
                        let a = choose|a: int| 0 <= a < l.len() && l[a].0 == q;
                        assert(other@.contains_key(l[a].0));
                    }
                }
            }
            assert(self@ =~= old(self)@.union_prefer_right(other@));
        }
    }

    /// The entries in the order of their keys.
    pub fn entries(&self) -> (r: &[(String, String)])
        ensures
            r.len() == self.listing().len(),
            forall|i: int| 0 <= i < r.len() ==> (#[trigger] r@[i].0@, r@[i].1@) == self.listing()[i],
    {
        self.entries.as_slice()
    }

    /// An empty map.
    pub fn new() -> (r: StringMap)
        ensures
            r.wf(),
            r@ == Map::<Seq<char>, Seq<char>>::empty(),
    {
        let r = StringMap { entries: Vec::new() };
        assert(r@ =~= Map::<Seq<char>, Seq<char>>::empty());
        r
    }

    fn find(&self, key: &str) -> (r: Option<usize>)
        requires
            self.wf(),
        ensures
            match r {
                Some(i) => i < self.entries.len() && self.entries@[i as int].0@ == key@,
                None => !self@.contains_key(key@),
            },
    {
        let mut i: usize = 0;
        while i < self.entries.len()
            invariant
                i <= self.entries.len(),
                forall|j: int| 0 <= j < i ==> self.entries@[j].0@ != key@,
            decreases self.entries.len() - i,
        {
            if same_text(self.entries[i].0.as_str(), key) {
                return Some(i);
            }
            i += 1;
        }
        None
    }

    /// The string for `key`.
    pub fn get(&self, key: &str) -> (r: Option<&String>)
        requires
            self.wf(),
        ensures
            match r {
                Some(v) => self@.contains_key(key@) && self@[key@] == v@,
                None => !self@.contains_key(key@),
            },
    {
        match self.find(key) {
            Some(i) => {
                proof {
                    let c = choose|j: int| 0 <= j < self.entries.len() && self.entries@[j].0@ == key@;
                    if c != i {
                        if c < i {
                            assert(self.entries@[c].0@ != self.entries@[i as int].0@);
                        } else {
                            assert(self.entries@[i as int].0@ != self.entries@[c].0@);
                        }
                    }
                }
                Some(&self.entries[i].1)
            },
            None => None,
        }
    }

    /// Sets `key` to `value`.
    pub fn insert(&mut self, key: String, value: String)
        requires
            old(self).wf(),
        ensures
            final(self).wf(),
            final(self)@ == old(self)@.insert(key@, value@),
    {
        let ghost k = key@;
        let ghost v = value@;
        match self.find(key.as_str()) {
            Some(i) => {
                let ghost before = self.entries@;
                self.entries.set(i, (key, value));
                proof {
                    assert forall|a: int, b: int| 0 <= a < b < self.entries.len() implies #[trigger] self.entries@[a].0@
                        != #[trigger] self.entries@[b].0@ by {
                        assert(before[a].0@ != before[b].0@);
                    }
                    assert forall|q: Seq<char>| #[trigger] self@.contains_key(q) == old(self)@.insert(k, v).contains_key(q) by {
                        if q == k {
                            assert(self.entries@[i as int].0@ == q);
                        } else if old(self)@.contains_key(q) {
                            let j = choose|j: int| 0 <= j < before.len() && before[j].0@ == q;
                            assert(self.entries@[j].0@ == q);
                        } else if self@.contains_key(q) {
                            let j = choose|j: int| 0 <= j < self.entries.len() && self.entries@[j].0@ == q;
                            assert(before[j].0@ == q);
                        }
                    }
                    assert forall|q: Seq<char>| #[trigger] self@.contains_key(q) implies self@[q] == old(self)@.insert(k, v)[q] by {
                        let c = choose|j: int| 0 <= j < self.entries.len() && self.entries@[j].0@ == q;
                        if q == k {
                            if c != i {
                                if c < i {
                                    assert(self.entries@[c].0@ != self.entries@[i as int].0@);
                                } else {
                                    assert(self.entries@[i as int].0@ != self.entries@[c].0@);
                                }
                            }
                        } else {
                            assert(before[c].0@ == q);
                            let c2 = choose|j: int| 0 <= j < before.len() && before[j].0@ == q;
                            if c2 != c {
                                if c2 < c {
                                    assert(before[c2].0@ != before[c].0@);
                                } else {
                                    assert(before[c].0@ != before[c2].0@);
                                }
                            }
                        }
                    }
                    assert(self@ =~= old(self)@.insert(k, v));
                }
            },
            None => {
                let mut p: usize = 0;
                while p < self.entries.len() && text_less(self.entries[p].0.as_str(), key.as_str())
                    invariant
                        p <= self.entries.len(),
                        k == key@,
                        forall|q: int| 0 <= q < p ==> text_lt(#[trigger] self.entries@[q].0@, k),
                    decreases self.entries.len() - p,
                {
                    p += 1;
                }
                let ghost before = self.entries@;
                let ghost pp = p as int;
                proof {
                    if p < before.len() {
                        lemma_text_lt_total(before[pp].0@, k);
                        if before[pp].0@ == k {
                            assert(old(self)@.contains_key(k));
                        }
                    }
                }
                self.entries.insert(p, (key, value));
                proof {
                    let e = self.entries@;
                    assert(e.len() == before.len() + 1);
                    assert forall|x: int| 0 <= x < e.len() implies #[trigger] e[x] == if x < pp {
                        before[x]
                    } else if x == pp {
                        (key, value)
                    } else {
                        before[x - 1]
                    } by {}
                    assert forall|a: int, b: int| 0 <= a < b < e.len() implies #[trigger] e[a].0@ != #[trigger] e[b].0@ by {
                        if a == pp {
                            if before[b - 1].0@ == k {
                                assert(old(self)@.contains_key(k));
                            }
                        } else if b == pp {
                            if before[a].0@ == k {
                                assert(old(self)@.contains_key(k));
                            }
                        } else if a < pp && b > pp {
                            assert(before[a].0@ != before[b - 1].0@);
                        } else if b < pp {
                            assert(before[a].0@ != before[b].0@);
                        } else {
                            assert(before[a - 1].0@ != before[b - 1].0@);
                        }
                    }
                    assert forall|a: int| 0 <= a < e.len() - 1 implies text_lt(#[trigger] e[a].0@, e[a + 1].0@) by {
                        if a + 1 < pp {
                            assert(text_lt(before[a].0@, before[a + 1].0@));
                        } else if a + 1 == pp {
                        } else if a == pp {
                        } else {
                            assert(text_lt(before[a - 1].0@, before[a].0@));
                        }
                    }
                    assert forall|q: Seq<char>| #[trigger] self@.contains_key(q) == old(self)@.insert(k, v).contains_key(q) by {
                        if q == k {
                            assert(e[pp].0@ == q);
                        } else if old(self)@.contains_key(q) {
                            let j = choose|j: int| 0 <= j < before.len() && before[j].0@ == q;
                            if j < pp {
                                assert(e[j].0@ == q);
                            } else {
                                assert(e[j + 1].0@ == q);
                            }
                        } else if self@.contains_key(q) {
                            let j = choose|j: int| 0 <= j < e.len() && e[j].0@ == q;
                            if j < pp {
                                assert(before[j].0@ == q);
                            } else {
                                assert(before[j - 1].0@ == q);
                            }
                        }
                    }
                    assert forall|q: Seq<char>| #[trigger] self@.contains_key(q) implies self@[q] == old(self)@.insert(k, v)[q] by {
                        let c = choose|j: int| 0 <= j < e.len() && e[j].0@ == q;
                        if q == k {
                            if c != pp {
                                if c < pp {
                                    assert(before[c].0@ == k);
                                } else {
                                    assert(before[c - 1].0@ == k);
                                }
                                assert(old(self)@.contains_key(k));
                            }
                        } else {
                            let bc = if c < pp { c } else { c - 1 };
                            assert(c != pp);
                            assert(before[bc].0@ == q);
                            let c2 = choose|j: int| 0 <= j < before.len() && before[j].0@ == q;
                            if c2 != bc {
                                if c2 < bc {
                                    assert(before[c2].0@ != before[bc].0@);
                                } else {
                                    assert(before[bc].0@ != before[c2].0@);
                                }
                            }
                        }
                    }
                    assert(self@ =~= old(self)@.insert(k, v));
                }
            },
        }
    }
}

/// The members of an object as a map of strings, where every value is a string;
/// a key that occurs twice has its last value.
pub open spec fn string_map_of(v: JsonValue) -> Option<Map<Seq<char>, Seq<char>>> {
    match v {
        JsonValue::Object(keys, values) => if forall|i: int| 0 <= i < values.len() ==> #[trigger] values[i] is Str {
            Some(pairs_map(keys, Seq::new(values.len(), |i: int| values[i]->Str_0), keys.len() as int))
        } else {
            None
        },
        _ => None,
    }
}

impl Value {
    /// The members of this object as a map of strings, where every value is a string.
    pub fn to_string_map(&self) -> (r: Option<StringMap>)
        ensures
            match string_map_of(self@) {
                Some(m) => r matches Some(x) && x.wf() && x@ == m,
                None => r is None,
            },
    {
        proof { lemma_object_view(*self); }
        let members = match self.as_object() {
            Some(m) => m,
            None => return None,
        };
        let ghost keys = Seq::new(members.len() as nat, |i: int| members@[i].0@);
        let ghost values = Seq::new(members.len() as nat, |i: int| members@[i].1@);
        proof {
            if let JsonValue::Object(k, x) = self@ {
                assert(k =~= keys);
                assert(x =~= values);
            }
        }
        assert(self@ == JsonValue::Object(keys, values));
        let mut map = StringMap::new();
        let mut i: usize = 0;
        while i < members.len()
            invariant
                i <= members.len(),
                keys == Seq::new(members.len() as nat, |k: int| members@[k].0@),
                values == Seq::new(members.len() as nat, |k: int| members@[k].1@),
                self@ == JsonValue::Object(keys, values),
                map.wf(),
                forall|j: int| 0 <= j < i ==> #[trigger] values[j] is Str,
                map@ == pairs_map(keys, Seq::new(values.len(), |j: int| values[j]->Str_0), i as int),
            decreases members.len() - i,
        {
            match members[i].1.as_str() {
                Some(s) => {
                    map.insert(members[i].0.clone(), s.to_owned());
                },
                None => {
                    assert(!(values[i as int] is Str));
                    return None;
                },
            }
            i += 1;
        }
        Some(map)
    }
}

} // verus!
