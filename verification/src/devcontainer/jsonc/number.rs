use vstd::prelude::*;

verus! {

/// Exponents written in a number are read with their magnitude capped at this value.
pub const EXPONENT_CAP: i128 = 100_000_000_000_000_000;

/// The decimal digits of the smallest magnitude that no longer rounds to a finite
/// double (2^1024 - 2^970); a number at or above it is rejected.
pub const OVERFLOW_DIGITS: [u8; 309] = [1, 7, 9, 7, 6, 9, 3, 1, 3, 4, 8, 6, 2, 3, 1, 5, 8, 0, 7, 9, 3, 7, 2, 8, 9, 7, 1, 4, 0, 5, 3, 0, 3, 4, 1, 5, 0, 7, 9, 9, 3, 4, 1, 3, 2, 7, 1, 0, 0, 3, 7, 8, 2, 6, 9, 3, 6, 1, 7, 3, 7, 7, 8, 9, 8, 0, 4, 4, 4, 9, 6, 8, 2, 9, 2, 7, 6, 4, 7, 5, 0, 9, 4, 6, 6, 4, 9, 0, 1, 7, 9, 7, 7, 5, 8, 7, 2, 0, 7, 0, 9, 6, 3, 3, 0, 2, 8, 6, 4, 1, 6, 6, 9, 2, 8, 8, 7, 9, 1, 0, 9, 4, 6, 5, 5, 5, 5, 4, 7, 8, 5, 1, 9, 4, 0, 4, 0, 2, 6, 3, 0, 6, 5, 7, 4, 8, 8, 6, 7, 1, 5, 0, 5, 8, 2, 0, 6, 8, 1, 9, 0, 8, 9, 0, 2, 0, 0, 0, 7, 0, 8, 3, 8, 3, 6, 7, 6, 2, 7, 3, 8, 5, 4, 8, 4, 5, 8, 1, 7, 7, 1, 1, 5, 3, 1, 7, 6, 4, 4, 7, 5, 7, 3, 0, 2, 7, 0, 0, 6, 9, 8, 5, 5, 5, 7, 1, 3, 6, 6, 9, 5, 9, 6, 2, 2, 8, 4, 2, 9, 1, 4, 8, 1, 9, 8, 6, 0, 8, 3, 4, 9, 3, 6, 4, 7, 5, 2, 9, 2, 7, 1, 9, 0, 7, 4, 1, 6, 8, 4, 4, 4, 3, 6, 5, 5, 1, 0, 7, 0, 4, 3, 4, 2, 7, 1, 1, 5, 5, 9, 6, 9, 9, 5, 0, 8, 0, 9, 3, 0, 4, 2, 8, 8, 0, 1, 7, 7, 9, 0, 4, 1, 7, 4, 4, 9, 7, 7, 9, 2];

/// An exact decimal number: `(-1)^negative * digits * 10^exponent`, kept in a
/// canonical form (no leading or trailing zero digit, and zero is `+0` with
/// exponent 0), so that two numbers are equal exactly when their values are.
#[derive(Debug, PartialEq, Eq)]
pub struct Number {
    negative: bool,
    digits: Vec<u8>,
    exponent: i128,
}

/// The mathematical content of a [`Number`].
pub struct NumberModel {
    pub negative: bool,
    pub digits: Seq<u8>,
    pub exponent: int,
}

impl View for Number {
    type V = NumberModel;

    closed spec fn view(&self) -> NumberModel {
        NumberModel { negative: self.negative, digits: self.digits@, exponent: self.exponent as int }
    }
}

pub open spec fn is_digit(c: char) -> bool {
    '0' <= c && c <= '9'
}

pub open spec fn digit_value(c: char) -> u8 {
    (c as u32 - '0' as u32) as u8
}

/// Exponents of stored numbers stay within this range.
pub open spec fn exponent_in_range(e: int) -> bool {
    -0x1_0000_0000_0000_0000_0000 <= e <= 0x1_0000_0000_0000_0000_0000
}

/// Whether the model is in canonical form.
pub open spec fn canonical(m: NumberModel) -> bool {
    &&& forall|i: int| 0 <= i < m.digits.len() ==> #[trigger] m.digits[i] < 10
    &&& m.digits.len() == 0 ==> !m.negative && m.exponent == 0
    &&& m.digits.len() > 0 ==> m.digits[0] != 0 && m.digits.last() != 0
}

/// Length of the run of digits of `t` starting at `i`.
pub open spec fn digit_run(t: Seq<char>, i: int) -> int
    decreases t.len() - i,
{
    if 0 <= i < t.len() && is_digit(t[i]) {
        1 + digit_run(t, i + 1)
    } else {
        0
    }
}

/// The value of the first `n` digits of `d`, read with saturation at [`EXPONENT_CAP`].
pub open spec fn capped_value(d: Seq<char>, n: nat) -> int
    decreases n,
{
    if n == 0 {
        0
    } else {
        let v = capped_value(d, (n - 1) as nat) * 10 + digit_value(d[n - 1]) as int;
        if v >= EXPONENT_CAP as int { EXPONENT_CAP as int } else { v }
    }
}

/// Number of zero digits of `d` from index `i` on, before the first other digit.
pub open spec fn zeros_from(d: Seq<u8>, i: int) -> int
    decreases d.len() - i,
{
    if 0 <= i < d.len() && d[i] == 0 { 1 + zeros_from(d, i + 1) } else { 0 }
}

/// Number of zero digits at the end of the first `n` digits of `d`.
pub open spec fn zeros_before(d: Seq<u8>, n: int) -> int
    decreases n,
{
    if 0 < n <= d.len() && d[n - 1] == 0 { 1 + zeros_before(d, n - 1) } else { 0 }
}

/// Number of zero digits at the start of `d`.
pub open spec fn leading_zeros(d: Seq<u8>) -> int {
    zeros_from(d, 0)
}

/// Number of zero digits at the end of `d`.
pub open spec fn trailing_zeros(d: Seq<u8>) -> int {
    zeros_before(d, d.len() as int)
}

/// The canonical number with the given sign, digit string and exponent.
pub open spec fn normalize(negative: bool, d: Seq<u8>, exponent: int) -> NumberModel {
    let a = d.skip(leading_zeros(d));
    if a.len() == 0 {
        NumberModel { negative: false, digits: Seq::empty(), exponent: 0 }
    } else {
        let tz = trailing_zeros(a);
        NumberModel { negative, digits: a.take(a.len() - tz), exponent: exponent + tz }
    }
}

pub open spec fn digit_values(t: Seq<char>) -> Seq<u8> {
    t.map_values(|c: char| digit_value(c))
}

/// The number that `t` denotes in the float grammar that the reader accepts:
/// an optional sign, digits with an optional fraction (at least one digit in
/// all), and an optional exponent `e`/`E` with an optional sign and digits.
pub open spec fn read_number(t: Seq<char>) -> Option<NumberModel> {
    let i0: int = if t.len() > 0 && (t[0] == '+' || t[0] == '-') { 1 } else { 0 };
    let negative = t.len() > 0 && t[0] == '-';
    let n1 = digit_run(t, i0);
    let has_dot = i0 + n1 < t.len() && t[i0 + n1] == '.';
    let i2 = if has_dot { i0 + n1 + 1 } else { i0 + n1 };
    let n2 = if has_dot { digit_run(t, i2) } else { 0 };
    let i3 = i2 + n2;
    let d = digit_values(t.subrange(i0, i0 + n1) + t.subrange(i2, i3));
    if n1 + n2 == 0 {
        None
    } else if i3 == t.len() {
        Some(normalize(negative, d, 0 - n2))
    } else if t[i3] == 'e' || t[i3] == 'E' {
        let i4 = i3 + 1;
        let signed = i4 < t.len() && (t[i4] == '+' || t[i4] == '-');
        let i5 = if signed { i4 + 1 } else { i4 };
        let n3 = digit_run(t, i5);
        let e = capped_value(t.subrange(i5, i5 + n3), n3 as nat);
        let e = if signed && t[i4] == '-' { -e } else { e };
        if n3 > 0 && i5 + n3 == t.len() {
            Some(normalize(negative, d, e - n2))
        } else {
            None
        }
    } else {
        None
    }
}

/// Whether `m`, read as the decimal fraction `0.m`, is below `0.b`, where the
/// last digit of `b` is not zero.
pub open spec fn fraction_below(m: Seq<u8>, b: Seq<u8>, i: int) -> bool
    decreases m.len() - i,
{
    if i >= m.len() {
        i < b.len()
    } else if i >= b.len() {
        false
    } else if m[i] < b[i] {
        true
    } else if m[i] > b[i] {
        false
    } else {
        fraction_below(m, b, i + 1)
    }
}

pub open spec fn overflow_digits() -> Seq<u8> {
    OVERFLOW_DIGITS@
}

/// Whether the magnitude of `m` is below 2^1024 - 2^970, the bound under
/// which a decimal still rounds to a finite double.
pub open spec fn finite(m: NumberModel) -> bool {
    let top = m.digits.len() + m.exponent;
    m.digits.len() == 0 || top <= 308 || (top == 309 && fraction_below(m.digits, overflow_digits(), 0))
}

/// What a number literal reads as: `None` where it is malformed or too large.
pub open spec fn number_of(t: Seq<char>) -> Option<NumberModel> {
    match read_number(t) {
        Some(m) => if finite(m) { Some(m) } else { None },
        None => None,
    }
}


/// Length of the run of digits of `t` from `i` on.
fn digit_run_exec(t: &Vec<char>, i: usize) -> (r: usize)
    requires
        i <= t.len(),
    ensures
        r as int == digit_run(t@, i as int),
        i + r <= t.len(),
{
    let mut j = i;
    while j < t.len() && '0' <= t[j] && t[j] <= '9'
        invariant
            i <= j <= t.len(),
            digit_run(t@, i as int) == (j - i) + digit_run(t@, j as int),
        decreases t.len() - j,
    {
        j += 1;
    }
    j - i
}

proof fn lemma_digit_run_digits(t: Seq<char>, i: int, k: int)
    requires
        0 <= i,
        i <= k < i + digit_run(t, i),
    ensures
        is_digit(t[k]),
        k < t.len(),
    decreases k - i,
{
    if k > i {
        lemma_digit_run_digits(t, i + 1, k);
    }
}

proof fn lemma_digit_run_bound(t: Seq<char>, i: int)
    requires
        0 <= i,
    ensures
        0 <= digit_run(t, i),
        i + digit_run(t, i) <= t.len() || digit_run(t, i) == 0,
    decreases t.len() - i,
{
    if 0 <= i < t.len() && is_digit(t[i]) {
        lemma_digit_run_bound(t, i + 1);
    }
}

/// Reads digit values of `t[lo..hi]` onto the end of `out`.
fn push_digits(t: &Vec<char>, lo: usize, hi: usize, out: &mut Vec<u8>)
    requires
        lo <= hi <= t.len(),
        forall|k: int| lo <= k < hi ==> is_digit(#[trigger] t@[k]),
    ensures
        final(out)@ == old(out)@ + digit_values(t@.subrange(lo as int, hi as int)),
{
    let mut k = lo;
    while k < hi
        invariant
            lo <= k <= hi <= t.len(),
            forall|j: int| lo <= j < hi ==> is_digit(#[trigger] t@[j]),
            out@ == old(out)@ + digit_values(t@.subrange(lo as int, k as int)),
        decreases hi - k,
    {
        let c = t[k];
        let d = ((c as u32) - ('0' as u32)) as u8;
        out.push(d);
        proof {
            assert(t@.subrange(lo as int, k + 1) =~= t@.subrange(lo as int, k as int).push(c));
            assert(digit_values(t@.subrange(lo as int, k + 1)) =~= digit_values(t@.subrange(lo as int, k as int)).push(digit_value(c)));
        }
        k += 1;
    }
}

/// The capped value of the `n` digits of `t` starting at `lo`.
fn capped_value_exec(t: &Vec<char>, lo: usize, n: usize) -> (r: i128)
    requires
        lo + n <= t.len(),
        forall|k: int| lo <= k < lo + n ==> is_digit(#[trigger] t@[k]),
    ensures
        r as int == capped_value(t@.subrange(lo as int, lo + n), n as nat),
        0 <= r <= EXPONENT_CAP,
{
    let ghost d = t@.subrange(lo as int, lo + n);
    let mut acc: i128 = 0;
    let mut j: usize = 0;
    while j < n
        invariant
            j <= n,
            lo + n <= t.len(),
            d == t@.subrange(lo as int, lo + n),
            forall|k: int| lo <= k < lo + n ==> is_digit(#[trigger] t@[k]),
            acc as int == capped_value(d, j as nat),
            0 <= acc <= EXPONENT_CAP,
        decreases n - j,
    {
        let c = t[lo + j];
        assert(is_digit(t@[lo + j]));
        assert(d[j as int] == c);
        let dv = ((c as u32) - ('0' as u32)) as i128;
        let v = acc * 10 + dv;
        acc = if v >= EXPONENT_CAP { EXPONENT_CAP } else { v };
        j += 1;
    }
    acc
}

fn zeros_from_exec(d: &Vec<u8>, i: usize) -> (r: usize)
    requires
        i <= d.len(),
    ensures
        r as int == zeros_from(d@, i as int),
        i + r <= d.len(),
{
    let mut j = i;
    while j < d.len() && d[j] == 0
        invariant
            i <= j <= d.len(),
            zeros_from(d@, i as int) == (j - i) + zeros_from(d@, j as int),
        decreases d.len() - j,
    {
        j += 1;
    }
    j - i
}

fn zeros_before_exec(d: &Vec<u8>, n: usize) -> (r: usize)
    requires
        n <= d.len(),
    ensures
        r as int == zeros_before(d@, n as int),
        r <= n,
{
    let mut j = n;
    while j > 0 && d[j - 1] == 0
        invariant
            j <= n <= d.len(),
            zeros_before(d@, n as int) == (n - j) + zeros_before(d@, j as int),
        decreases j,
    {
        j -= 1;
    }
    n - j
}

proof fn lemma_zeros_from_nonzero(d: Seq<u8>, i: int)
    requires
        0 <= i,
        i + zeros_from(d, i) < d.len(),
    ensures
        d[i + zeros_from(d, i)] != 0,
    decreases d.len() - i,
{
    if 0 <= i < d.len() && d[i] == 0 {
        lemma_zeros_from_nonzero(d, i + 1);
    }
}

proof fn lemma_zeros_before_nonzero(d: Seq<u8>, n: int)
    requires
        n <= d.len(),
        zeros_before(d, n) < n,
    ensures
        d[n - zeros_before(d, n) - 1] != 0,
    decreases n,
{
    if 0 < n <= d.len() && d[n - 1] == 0 {
        lemma_zeros_before_nonzero(d, n - 1);
    }
}

proof fn lemma_zeros_before_skip(d: Seq<u8>, k: int, n: int)
    requires
        0 <= k <= n <= d.len(),
        zeros_before(d, n) <= n - k,
    ensures
        zeros_before(d.skip(k), n - k) == zeros_before(d, n),
    decreases n,
{
    let e = d.skip(k);
    lemma_zeros_before_le(d, n);
    if n - k > 0 {
        assert(e[n - k - 1] == d[n - 1]);
        if d[n - 1] == 0 {
            lemma_zeros_before_skip(d, k, n - 1);
            assert(zeros_before(e, n - k) == 1 + zeros_before(e, n - k - 1));
        } else {
            assert(zeros_before(e, n - k) == 0);
        }
    }
}

proof fn lemma_zeros_before_at(d: Seq<u8>, n: int, k: int)
    requires
        0 <= k < n <= d.len(),
        zeros_before(d, n) > n - 1 - k,
    ensures
        d[k] == 0,
    decreases n,
{
    if k < n - 1 {
        lemma_zeros_before_at(d, n - 1, k);
    }
}

proof fn lemma_zeros_before_le(d: Seq<u8>, n: int)
    requires
        0 <= n <= d.len(),
    ensures
        0 <= zeros_before(d, n) <= n,
    decreases n,
{
    if 0 < n && d[n - 1] == 0 {
        lemma_zeros_before_le(d, n - 1);
    }
}

proof fn lemma_zeros_from_le(d: Seq<u8>, i: int)
    requires
        0 <= i <= d.len(),
    ensures
        0 <= zeros_from(d, i) <= d.len() - i,
    decreases d.len() - i,
{
    if i < d.len() && d[i] == 0 {
        lemma_zeros_from_le(d, i + 1);
    }
}

proof fn lemma_all_zero_before(d: Seq<u8>, i: int, n: int)
    requires
        0 <= i <= n <= d.len(),
        zeros_from(d, i) >= n - i,
    ensures
        zeros_before(d, n) == n - i + zeros_before(d, i),
    decreases n - i,
{
    if n > i {
        lemma_all_zero_at(d, i, n - 1);
        lemma_all_zero_before(d, i, n - 1);
        assert(zeros_from(d, i) >= n - 1 - i);
    }
}

proof fn lemma_all_zero_at(d: Seq<u8>, i: int, k: int)
    requires
        0 <= i <= k < d.len(),
        zeros_from(d, i) > k - i,
    ensures
        d[k] == 0,
    decreases k - i,
{
    if k > i {
        lemma_all_zero_at(d, i + 1, k);
    }
}

/// The canonical number for a sign, a digit string and an exponent.
fn normalize_exec(negative: bool, d: Vec<u8>, exponent: i128) -> (r: Number)
    requires
        forall|i: int| 0 <= i < d.len() ==> #[trigger] d@[i] < 10,
        -EXPONENT_CAP - d.len() <= exponent <= EXPONENT_CAP,
    ensures
        r@ == normalize(negative, d@, exponent as int),
        canonical(r@),
        exponent_in_range(r@.exponent),
{
    let lz = zeros_from_exec(&d, 0);
    let n = d.len();
    if lz == n {
        let r = Number { negative: false, digits: Vec::new(), exponent: 0 };
        assert(d@.skip(lz as int).len() == 0);
        assert(r@.digits =~= Seq::<u8>::empty());
        return r;
    }
    let tz = zeros_before_exec(&d, n);
    proof {
        lemma_zeros_from_nonzero(d@, 0);
        lemma_zeros_before_le(d@, n as int);
        if tz >= n - lz {
            lemma_zeros_before_at(d@, n as int, lz as int);
            assert(false);
        }
        assert(tz < n - lz);
        assert(tz < n);
        lemma_zeros_before_skip(d@, lz as int, n as int);
        lemma_zeros_before_nonzero(d@, n as int);
    }
    let mut digits: Vec<u8> = Vec::new();
    let mut k = lz;
    while k < n - tz
        invariant
            lz <= k <= n - tz,
            n == d.len(),
            digits@ == d@.subrange(lz as int, k as int),
        decreases n - tz - k,
    {
        digits.push(d[k]);
        proof { assert(d@.subrange(lz as int, k + 1) =~= d@.subrange(lz as int, k as int).push(d@[k as int])); }
        k += 1;
    }
    proof {
        assert(digits@.len() == n - tz - lz);
        assert(digits@[0] == d@[lz as int]);
        assert(digits@.last() == d@[n - tz - 1]);
    }
    let r = Number { negative, digits, exponent: exponent + tz as i128 };
    proof {
        let a = d@.skip(lz as int);
        assert(a.take(a.len() - tz) =~= d@.subrange(lz as int, n - tz));
        assert(trailing_zeros(a) == tz);
        assert(forall|i: int| 0 <= i < r@.digits.len() ==> r@.digits[i] == d@[lz + i]);
    }
    r
}


fn fraction_below_exec(m: &Vec<u8>, b: &[u8]) -> (r: bool)
    ensures
        r == fraction_below(m@, b@, 0),
{
    let mut i: usize = 0;
    while i < m.len() && i < b.len() && m[i] == b[i]
        invariant
            i <= m.len(),
            fraction_below(m@, b@, 0) == fraction_below(m@, b@, i as int),
        decreases m.len() - i,
    {
        i += 1;
    }
    if i >= m.len() {
        i < b.len()
    } else if i >= b.len() {
        false
    } else {
        m[i] < b[i]
    }
}

impl Number {
    /// Stored numbers are canonical, with an exponent in range.
    #[verifier::type_invariant]
    spec fn well_formed(&self) -> bool {
        canonical(self@) && exponent_in_range(self@.exponent)
    }

    /// The digits of this number, most significant first.
    pub fn digits_ref(&self) -> (r: &Vec<u8>)
        ensures
            r@ == self@.digits,
            canonical(self@),
            exponent_in_range(self@.exponent),
    {
        proof { use_type_invariant(self); }
        &self.digits
    }

    /// The power of ten the digits are scaled by.
    pub fn exponent_value(&self) -> (r: i128)
        ensures
            r == self@.exponent,
    {
        self.exponent
    }

    /// Whether this number is below zero.
    pub fn is_negative(&self) -> (r: bool)
        ensures
            r == self@.negative,
    {
        self.negative
    }

    /// A copy of this number.
    pub(crate) fn copy(&self) -> (r: Number)
        ensures
            r@ == self@,
    {
        let mut digits: Vec<u8> = Vec::new();
        let mut i: usize = 0;
        while i < self.digits.len()
            invariant
                i <= self.digits.len(),
                digits@ == self.digits@.take(i as int),
            decreases self.digits.len() - i,
        {
            digits.push(self.digits[i]);
            i += 1;
        }
        assert(self.digits@.take(self.digits.len() as int) =~= self.digits@);
        proof { use_type_invariant(self); }
        Number { negative: self.negative, digits, exponent: self.exponent }
    }

    /// Whether the magnitude of this number rounds to a finite double.
    fn is_finite(&self) -> (r: bool)
        requires
            exponent_in_range(self@.exponent),
        ensures
            r == finite(self@),
    {
        if self.digits.len() == 0 {
            return true;
        }
        let top: i128 = self.digits.len() as i128 + self.exponent;
        if top <= 308 {
            true
        } else if top == 309 {
            let bound: [u8; 309] = OVERFLOW_DIGITS;
            fraction_below_exec(&self.digits, bound.as_slice())
        } else {
            false
        }
    }
}


/// The digit values of the integer run `t[i0..i0+n1]` followed by the fraction run `t[i2..i2+n2]`.
fn mantissa_digits(t: &Vec<char>, i0: usize, n1: usize, i2: usize, n2: usize) -> (d: Vec<u8>)
    requires
        i0 + n1 <= i2,
        i2 + n2 <= t.len(),
        n1 == digit_run(t@, i0 as int),
        n2 == 0 || n2 == digit_run(t@, i2 as int),
    ensures
        d@ == digit_values(t@.subrange(i0 as int, i0 + n1) + t@.subrange(i2 as int, i2 + n2)),
        d.len() == n1 + n2,
        forall|i: int| 0 <= i < d.len() ==> #[trigger] d@[i] < 10,
{
    let i3 = i2 + n2;
    proof {
        assert forall|k: int| i0 <= k < i0 + n1 implies is_digit(#[trigger] t@[k]) by {
            lemma_digit_run_digits(t@, i0 as int, k);
        }
        assert forall|k: int| i2 <= k < i3 implies is_digit(#[trigger] t@[k]) by {
            lemma_digit_run_digits(t@, i2 as int, k);
        }
    }
    let mut d: Vec<u8> = Vec::new();
    push_digits(t, i0, i0 + n1, &mut d);
    push_digits(t, i2, i3, &mut d);
    proof {
        assert(digit_values(t@.subrange(i0 as int, i0 + n1) + t@.subrange(i2 as int, i3 as int))
            =~= digit_values(t@.subrange(i0 as int, i0 + n1)) + digit_values(t@.subrange(i2 as int, i3 as int)));
        assert forall|i: int| 0 <= i < d.len() implies #[trigger] d@[i] < 10 by {
            if i < n1 {
                assert(d@[i] == digit_value(t@[i0 + i]));
            } else {
                assert(d@[i] == digit_value(t@[i2 + i - n1]));
            }
        }
    }
    d
}

/// Reads a number literal; `None` where it is malformed or does not round to a
/// finite double.
#[verifier::rlimit(40)]
pub fn number_from_chars(t: &Vec<char>) -> (r: Option<Number>)
    ensures
        match r {
            Some(n) => number_of(t@) == Some(n@) && canonical(n@),
            None => number_of(t@) is None,
        },
{
    let len = t.len();
    let i0: usize = if len > 0 && (t[0] == '+' || t[0] == '-') { 1 } else { 0 };
    let negative = len > 0 && t[0] == '-';
    let n1 = digit_run_exec(t, i0);
    let has_dot = i0 + n1 < len && t[i0 + n1] == '.';
    let i2 = if has_dot { i0 + n1 + 1 } else { i0 + n1 };
    let n2 = if has_dot { digit_run_exec(t, i2) } else { 0 };
    let i3 = i2 + n2;
    if n1 + n2 == 0 {
        return None;
    }
    let d = mantissa_digits(t, i0, n1, i2, n2);
    let m = if i3 == len {
        normalize_exec(negative, d, 0 - n2 as i128)
    } else if t[i3] == 'e' || t[i3] == 'E' {
        let i4 = i3 + 1;
        let signed = i4 < len && (t[i4] == '+' || t[i4] == '-');
        let i5 = if signed { i4 + 1 } else { i4 };
        let n3 = digit_run_exec(t, i5);
        if !(n3 > 0 && i5 + n3 == len) {
            return None;
        }
        proof {
            assert forall|k: int| i5 <= k < i5 + n3 implies is_digit(#[trigger] t@[k]) by {
                lemma_digit_run_digits(t@, i5 as int, k);
            }
        }
        let e = capped_value_exec(t, i5, n3);
        let e = if signed && t[i4] == '-' { -e } else { e };
        normalize_exec(negative, d, e - n2 as i128)
    } else {
        return None;
    };
    if m.is_finite() {
        Some(m)
    } else {
        None
    }
}

} // verus!
