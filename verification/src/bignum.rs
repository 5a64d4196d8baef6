//! Arbitrary-precision naturals and integers.
//!
//! A `BigNat` holds its value as little-endian base-2^32 digits, the same
//! digits that `num_bigint::BigUint` is built from; the arithmetic itself is
//! done by `num_bigint`, behind the small wrappers at the end of this file.
use vstd::prelude::*;
use vstd::arithmetic::power2::pow2;
use num_bigint::BigUint;
use num_traits::ToPrimitive;

verus! {

/// The value of little-endian base-2^32 digits.
pub open spec fn digits_value(d: Seq<u32>) -> nat
    decreases d.len(),
{
    if d.len() == 0 {
        0
    } else {
        d[0] as nat + 0x1_0000_0000 * digits_value(d.drop_first())
    }
}

/// Bit `i` of `n` (bit 0 is the least significant).
pub open spec fn bit_of(n: nat, i: nat) -> bool {
    (n / pow2(i)) % 2 == 1
}

/// The fewest bits needed to write `n` (0 for 0).
pub open spec fn bit_length(n: nat) -> nat
    decreases n,
{
    if n == 0 {
        0
    } else {
        1 + bit_length(n / 2)
    }
}

/// `n` with bit `i` set to `b`.
pub open spec fn with_bit(n: nat, i: nat, b: bool) -> nat {
    if bit_of(n, i) == b {
        n
    } else if b {
        n + pow2(i)
    } else {
        (n - pow2(i)) as nat
    }
}

/// The decimal digit `d`, for `d` below 10.
pub open spec fn digit_char(d: nat) -> char {
    (48 + d) as char
}

/// The decimal digits of `n`, most significant first, with no leading zero
/// ("0" for zero).
pub open spec fn decimal_text(n: nat) -> Seq<char>
    decreases n,
{
    if n < 10 {
        seq![digit_char(n)]
    } else {
        decimal_text(n / 10).push(digit_char(n % 10))
    }
}

/// The decimal text of a number has at least one digit, and at least two
/// from ten on.
pub proof fn lemma_decimal_text_len(n: nat)
    ensures
        decimal_text(n).len() >= 1,
        n >= 10 ==> decimal_text(n).len() >= 2,
    decreases n,
{
    if n >= 10 {
        lemma_decimal_text_len(n / 10);
    }
}

/// Different numbers have different decimal texts.
pub proof fn lemma_decimal_text_injective(a: nat, b: nat)
    ensures
        decimal_text(a) == decimal_text(b) ==> a == b,
    decreases a + b,
{
    lemma_decimal_text_len(a);
    lemma_decimal_text_len(b);
    if decimal_text(a) == decimal_text(b) {
        if a < 10 && b < 10 {
            assert(decimal_text(a)[0] == digit_char(a));
            assert(decimal_text(b)[0] == digit_char(b));
            assert((digit_char(a) as int) == 48 + a);
            assert((digit_char(b) as int) == 48 + b);
        } else if a >= 10 && b >= 10 {
            let ta = decimal_text(a);
            assert(ta.last() == digit_char(a % 10));
            assert(decimal_text(b).last() == digit_char(b % 10));
            assert((digit_char(a % 10) as int) == 48 + a % 10);
            assert((digit_char(b % 10) as int) == 48 + b % 10);
            assert(ta.drop_last() =~= decimal_text(a / 10));
            assert(decimal_text(b).drop_last() =~= decimal_text(b / 10));
            lemma_decimal_text_injective(a / 10, b / 10);
        }
    }
}

/// A natural number of any size.
#[derive(Clone, Debug)]
pub struct BigNat {
    digits: Vec<u32>,
}

impl View for BigNat {
    type V = nat;

    closed spec fn view(&self) -> nat {
        digits_value(self.digits@)
    }
}

impl BigNat {
    /// The number 0.
    pub fn zero() -> (r: BigNat)
        ensures
            r@ == 0,
    {
        BigNat { digits: Vec::new() }
    }

    /// The number 1.
    pub fn one() -> (r: BigNat)
        ensures
            r@ == 1,
    {
        let mut digits: Vec<u32> = Vec::new();
        digits.push(1);
        let r = BigNat { digits };
        assert(r.digits@.drop_first().len() == 0);
        assert(digits_value(r.digits@.drop_first()) == 0);
        r
    }

    /// The number with the given little-endian base-2^32 digits.
    pub fn from_digits(digits: Vec<u32>) -> (r: BigNat)
        ensures
            r@ == digits_value(digits@),
    {
        BigNat { digits }
    }

    /// The little-endian base-2^32 digits of this number.
    pub fn to_digits(&self) -> (r: Vec<u32>)
        ensures
            digits_value(r@) == self@,
    {
        self.digits.clone()
    }

    /// The number `v`.
    pub fn from_u64(v: u64) -> (r: BigNat)
        ensures
            r@ == v,
    {
        let mut digits: Vec<u32> = Vec::new();
        digits.push((v % 0x1_0000_0000) as u32);
        digits.push((v / 0x1_0000_0000) as u32);
        let r = BigNat { digits };
        let ghost d = r.digits@;
        assert(d.drop_first().drop_first().len() == 0);
        assert(digits_value(d.drop_first().drop_first()) == 0);
        assert(digits_value(d.drop_first()) == d[1] as nat);
        assert(v == (v % 0x1_0000_0000) + 0x1_0000_0000 * (v / 0x1_0000_0000));
        r
    }

    /// A copy of this number.
    pub fn copy(&self) -> (r: BigNat)
        ensures
            r@ == self@,
    {
        BigNat { digits: self.digits.clone() }
    }

    /// The number in decimal.
    pub fn to_decimal(&self) -> (r: String)
        ensures
            r@ == decimal_text(self@),
    {
        biguint_to_decimal(&self.digits)
    }

    /// The fewest bits needed to write this number.
    pub fn bits(&self) -> (r: u64)
        ensures
            r == bit_length(self@),
    {
        biguint_bits(&self.digits)
    }

    /// Whether bit `i` is set.
    pub fn bit(&self, i: u64) -> (r: bool)
        ensures
            r == bit_of(self@, i as nat),
    {
        biguint_bit(&self.digits, i)
    }

    /// Sets bit `i` to `b`.
    pub fn set_bit(&mut self, i: u64, b: bool)
        ensures
            final(self)@ == with_bit(old(self)@, i as nat, b),
    {
        let d = biguint_set_bit(&self.digits, i, b);
        self.digits = d;
    }

    /// This number minus one.
    pub fn sub_one(&self) -> (r: BigNat)
        requires
            self@ >= 1,
        ensures
            r@ == self@ - 1,
    {
        BigNat { digits: biguint_sub_one(&self.digits) }
    }

    /// This number plus one.
    pub fn add_one(&self) -> (r: BigNat)
        ensures
            r@ == self@ + 1,
    {
        BigNat { digits: biguint_add_one(&self.digits) }
    }

    /// Whether the two numbers are equal.
    pub fn equals(&self, other: &BigNat) -> (r: bool)
        ensures
            r == (self@ == other@),
    {
        biguint_eq(&self.digits, &other.digits)
    }

    /// Whether this number is at most `other`.
    pub fn le(&self, other: &BigNat) -> (r: bool)
        ensures
            r == (self@ <= other@),
    {
        biguint_le(&self.digits, &other.digits)
    }

    /// Whether this number is less than `other`.
    pub fn lt(&self, other: &BigNat) -> (r: bool)
        ensures
            r == (self@ < other@),
    {
        !biguint_le(&other.digits, &self.digits)
    }

    /// This number as a `u64`, when it fits.
    pub fn to_u64(&self) -> (r: Option<u64>)
        ensures
            r matches Some(v) ==> v == self@,
            r is None <==> self@ > u64::MAX,
    {
        biguint_to_u64(&self.digits)
    }
}

/// The value of big-endian decimal digits.
pub open spec fn decimal_value(d: Seq<u8>) -> nat
    decreases d.len(),
{
    if d.len() == 0 {
        0
    } else {
        10 * decimal_value(d.drop_last()) + d.last() as nat
    }
}

/// Reads big-endian decimal digits (each below 10).
pub fn nat_from_decimal(digits: &Vec<u8>) -> (r: BigNat)
    requires
        forall|i: int| 0 <= i < digits@.len() ==> digits@[i] < 10,
    ensures
        r@ == decimal_value(digits@),
{
    BigNat { digits: biguint_from_decimal(digits) }
}

/// The sign of an integer.
#[derive(Clone, Copy, Debug, PartialEq, Eq)]
pub enum Sign {
    Minus,
    NoSign,
    Plus,
}

/// An integer of any size: a sign and a magnitude.
#[derive(Debug)]
pub struct BigInt {
    negative: bool,
    magnitude: BigNat,
}

impl View for BigInt {
    type V = int;

    closed spec fn view(&self) -> int {
        if self.negative {
            -(self.magnitude@ as int)
        } else {
            self.magnitude@ as int
        }
    }
}

impl BigInt {
    #[verifier::type_invariant]
    spec fn no_negative_zero(&self) -> bool {
        self.negative ==> self.magnitude@ > 0
    }

    /// The integer with the given sign and magnitude; a zero magnitude gives 0
    /// whatever the sign.
    pub fn from_sign_magnitude(negative: bool, magnitude: BigNat) -> (r: BigInt)
        ensures
            r@ == (if negative { -(magnitude@ as int) } else { magnitude@ as int }),
    {
        let zero = BigNat::zero();
        let is_zero = magnitude.equals(&zero);
        BigInt { negative: negative && !is_zero, magnitude }
    }

    /// The integer `v`.
    pub fn from_i64(v: i64) -> (r: BigInt)
        ensures
            r@ == v,
    {
        if v < 0 {
            let m: u64 = if v == i64::MIN {
                0x8000_0000_0000_0000u64
            } else {
                (-v) as u64
            };
            BigInt { negative: true, magnitude: BigNat::from_u64(m) }
        } else {
            BigInt { negative: false, magnitude: BigNat::from_u64(v as u64) }
        }
    }

    /// The sign: `Minus` below zero, `NoSign` at zero, `Plus` above.
    pub fn sign(&self) -> (r: Sign)
        ensures
            r == (if self@ < 0 { Sign::Minus } else if self@ == 0 { Sign::NoSign } else { Sign::Plus }),
    {
        proof { use_type_invariant(self); }
        if self.negative {
            Sign::Minus
        } else if self.magnitude.equals(&BigNat::zero()) {
            Sign::NoSign
        } else {
            Sign::Plus
        }
    }

    /// The absolute value.
    pub fn magnitude(&self) -> (r: &BigNat)
        ensures
            r@ as int == (if self@ < 0 { -self@ } else { self@ }),
    {
        proof { use_type_invariant(self); }
        &self.magnitude
    }

    /// A copy of this integer.
    pub fn copy(&self) -> (r: BigInt)
        ensures
            r@ == self@,
    {
        proof { use_type_invariant(self); }
        BigInt { negative: self.negative, magnitude: self.magnitude.copy() }
    }

    /// Whether this integer is at most `other`.
    pub fn le(&self, other: &BigInt) -> (r: bool)
        ensures
            r == (self@ <= other@),
    {
        bigint_le(self.negative, &self.magnitude.digits, other.negative, &other.magnitude.digits)
    }

    /// Whether this integer is less than `other`.
    pub fn lt(&self, other: &BigInt) -> (r: bool)
        ensures
            r == (self@ < other@),
    {
        !bigint_le(other.negative, &other.magnitude.digits, self.negative, &self.magnitude.digits)
    }
}

/// The value of a signed number given as a sign flag and magnitude digits.
pub open spec fn signed_value(negative: bool, d: Seq<u32>) -> int {
    if negative {
        -(digits_value(d) as int)
    } else {
        digits_value(d) as int
    }
}

// ---------------------------------------------------------------------------
// Calls into num_bigint.
/// `BigUint::to_str_radix(10)`: the number in decimal, without leading
/// zeros, and "0" for zero.
#[verifier::external_body]
fn biguint_to_decimal(d: &Vec<u32>) -> (r: String)
    ensures
        r@ == decimal_text(digits_value(d@)),
{
    BigUint::from_slice(d).to_str_radix(10)
}

/// `BigUint::bits`: the fewest bits needed to write the number.
#[verifier::external_body]
fn biguint_bits(d: &Vec<u32>) -> (r: u64)
    ensures
        r == bit_length(digits_value(d@)),
{
    BigUint::from_slice(d).bits()
}

/// `BigUint::bit`: whether bit `i` of the number is set.
#[verifier::external_body]
fn biguint_bit(d: &Vec<u32>, i: u64) -> (r: bool)
    ensures
        r == bit_of(digits_value(d@), i as nat),
{
    BigUint::from_slice(d).bit(i)
}

/// `BigUint::set_bit`: the number with bit `i` set to `b`.
#[verifier::external_body]
fn biguint_set_bit(d: &Vec<u32>, i: u64, b: bool) -> (r: Vec<u32>)
    ensures
        digits_value(r@) == with_bit(digits_value(d@), i as nat, b),
{
    let mut n = BigUint::from_slice(d);
    n.set_bit(i, b);
    n.to_u32_digits()
}

/// `BigUint - 1` (subtraction panics below zero, so the number must be positive).
#[verifier::external_body]
fn biguint_sub_one(d: &Vec<u32>) -> (r: Vec<u32>)
    requires
        digits_value(d@) >= 1,
    ensures
        digits_value(r@) == digits_value(d@) - 1,
{
    (BigUint::from_slice(d) - 1u32).to_u32_digits()
}

/// `BigUint + 1`.
#[verifier::external_body]
fn biguint_add_one(d: &Vec<u32>) -> (r: Vec<u32>)
    ensures
        digits_value(r@) == digits_value(d@) + 1,
{
    (BigUint::from_slice(d) + 1u32).to_u32_digits()
}

/// `BigUint == BigUint`.
#[verifier::external_body]
fn biguint_eq(a: &Vec<u32>, b: &Vec<u32>) -> (r: bool)
    ensures
        r == (digits_value(a@) == digits_value(b@)),
{
    BigUint::from_slice(a) == BigUint::from_slice(b)
}

/// `BigUint <= BigUint`.
#[verifier::external_body]
fn biguint_le(a: &Vec<u32>, b: &Vec<u32>) -> (r: bool)
    ensures
        r == (digits_value(a@) <= digits_value(b@)),
{
    BigUint::from_slice(a) <= BigUint::from_slice(b)
}

/// `ToPrimitive::to_u64` on a `BigUint`: `Some` exactly when the number fits.
#[verifier::external_body]
fn biguint_to_u64(d: &Vec<u32>) -> (r: Option<u64>)
    ensures
        r matches Some(v) ==> v == digits_value(d@),
        r is None <==> digits_value(d@) > u64::MAX,
{
    BigUint::from_slice(d).to_u64()
}

/// `BigUint::from_radix_be(digits, 10)`, which succeeds when every digit is below 10.
#[verifier::external_body]
fn biguint_from_decimal(digits: &Vec<u8>) -> (r: Vec<u32>)
    requires
        forall|i: int| 0 <= i < digits@.len() ==> digits@[i] < 10,
    ensures
        digits_value(r@) == decimal_value(digits@),
{
    BigUint::from_radix_be(digits, 10).unwrap().to_u32_digits()
}

/// `BigInt <= BigInt`, each built by `BigInt::from_slice` from a sign and magnitude digits.
#[verifier::external_body]
fn bigint_le(an: bool, a: &Vec<u32>, bn: bool, b: &Vec<u32>) -> (r: bool)
    ensures
        r == (signed_value(an, a@) <= signed_value(bn, b@)),
{
    let sa = if an { num_bigint::Sign::Minus } else { num_bigint::Sign::Plus };
    let sb = if bn { num_bigint::Sign::Minus } else { num_bigint::Sign::Plus };
    num_bigint::BigInt::from_slice(sa, a) <= num_bigint::BigInt::from_slice(sb, b)
}

} // verus!

verus! {

impl DeepView for BigNat {
    type V = nat;

    open spec fn deep_view(&self) -> nat {
        self@
    }
}

impl DeepView for BigInt {
    type V = int;

    open spec fn deep_view(&self) -> int {
        self@
    }
}

} // verus!
