//! The variable-length encodings of `nat` and `int`, and the facts about
//! bits and 7-bit groups that the encoder and decoder are proved with.
use vstd::prelude::*;
use vstd::arithmetic::power2::{pow2, lemma_pow2_pos, lemma_pow2_unfold, lemma_pow2_adds, lemma2_to64};
use vstd::arithmetic::div_mod::{lemma_div_denominator, lemma_mod_breakdown, lemma_fundamental_div_mod_converse, lemma_fundamental_div_mod};
use crate::bignum::{bit_of, bit_length};

verus! {

/// The encoding of a `nat`: groups of 7 bits, least significant first; every
/// byte but the last has its high bit set.
pub open spec fn vlq_nat(n: nat) -> Seq<u8>
    decreases n,
{
    if n < 128 {
        seq![n as u8]
    } else {
        seq![(n % 128 + 128) as u8] + vlq_nat(n / 128)
    }
}

/// The encoding of an `int` whose bits, without the sign, are `m`: groups of
/// 7 bits, least significant first, the last byte holding 6 bits and the sign
/// in bit 6.
pub open spec fn vlq_signed_bits(m: nat, neg: bool) -> Seq<u8>
    decreases m,
{
    if m < 64 {
        seq![(m + if neg { 64nat } else { 0nat }) as u8]
    } else {
        seq![(m % 128 + 128) as u8] + vlq_signed_bits(m / 128, neg)
    }
}

/// The encoding of an `int`: a negative `k` is written as the bits of `-k - 1`
/// with the sign bit set.
pub open spec fn vlq_int(k: int) -> Seq<u8> {
    if k < 0 {
        vlq_signed_bits((-k - 1) as nat, true)
    } else {
        vlq_signed_bits(k as nat, false)
    }
}

/// Decodes a `nat` from the front of `s`: its value and the bytes it takes.
pub open spec fn unvlq_nat(s: Seq<u8>) -> Option<(nat, nat)>
    decreases s.len(),
{
    if s.len() == 0 {
        None
    } else if s[0] < 128 {
        Some((s[0] as nat, 1))
    } else {
        match unvlq_nat(s.drop_first()) {
            Some((v, l)) => Some((((s[0] - 128) + 128 * v) as nat, l + 1)),
            None => None,
        }
    }
}

/// Decodes the bits and sign of an `int` from the front of `s`: the bits, the
/// sign and the bytes taken.
pub open spec fn unvlq_signed_bits(s: Seq<u8>) -> Option<(nat, bool, nat)>
    decreases s.len(),
{
    if s.len() == 0 {
        None
    } else if s[0] < 128 {
        Some(((s[0] % 64) as nat, s[0] >= 64, 1))
    } else {
        match unvlq_signed_bits(s.drop_first()) {
            Some((v, neg, l)) => Some((((s[0] - 128) + 128 * v) as nat, neg, l + 1)),
            None => None,
        }
    }
}

/// Decodes an `int` from the front of `s`: its value and the bytes it takes.
pub open spec fn unvlq_int(s: Seq<u8>) -> Option<(int, nat)> {
    match unvlq_signed_bits(s) {
        Some((m, neg, l)) => Some((if neg { -(m as int) - 1 } else { m as int }, l)),
        None => None,
    }
}

// ---------------------------------------------------------------------------
// Bit streams.
/// The value of a little-endian sequence of bits.
pub open spec fn pack(s: Seq<bool>) -> nat
    decreases s.len(),
{
    if s.len() == 0 {
        0
    } else {
        (if s[0] { 1nat } else { 0nat }) + 2 * pack(s.drop_first())
    }
}

/// The bytes that a stream of bits is written as: groups of 7 bits, every
/// byte but the last with its high bit set. An empty stream is one zero byte.
pub open spec fn emit(s: Seq<bool>) -> Seq<u8>
    decreases s.len(),
{
    if s.len() <= 7 {
        seq![pack(s) as u8]
    } else {
        seq![(pack(s.take(7)) + 128) as u8] + emit(s.skip(7))
    }
}

/// The lowest `k` bits of `n`.
pub open spec fn nat_bits(n: nat, k: nat) -> Seq<bool> {
    Seq::new(k, |i: int| bit_of(n, i as nat))
}

/// `k` zero bits.
pub open spec fn zero_bits(k: nat) -> Seq<bool> {
    Seq::new(k, |i: int| false)
}

/// How many zero bits pad `k` bits so that 6 bits of the last byte are used.
pub open spec fn sign_padding(k: nat) -> nat {
    ((6 + 7 - (k % 7)) % 7) as nat
}

/// The stream that the signed encoder writes: the bits of `m`, the padding,
/// and the sign.
pub open spec fn signed_stream(m: nat, neg: bool) -> Seq<bool> {
    nat_bits(m, bit_length(m)) + zero_bits(sign_padding(bit_length(m))) + seq![neg]
}

pub proof fn lemma_pack_bound(s: Seq<bool>)
    ensures
        pack(s) < pow2(s.len()),
    decreases s.len(),
{
    lemma_pow2_pos(s.len());
    if s.len() > 0 {
        lemma_pack_bound(s.drop_first());
        lemma_pow2_unfold(s.len());
    }
}

pub proof fn lemma_pack_push(s: Seq<bool>, b: bool)
    ensures
        pack(s.push(b)) == pack(s) + (if b { pow2(s.len()) } else { 0 }),
    decreases s.len(),
{
    if s.len() == 0 {
        lemma2_to64();
        assert(s.push(b).drop_first() =~= Seq::<bool>::empty());
        assert(pack(Seq::<bool>::empty()) == 0);
        assert(s.push(b)[0] == b);
    } else {
        assert(s.push(b).drop_first() =~= s.drop_first().push(b));
        assert(s.push(b)[0] == s[0]);
        lemma_pack_push(s.drop_first(), b);
        lemma_pow2_unfold(s.len());
        assert(pack(s.push(b)) == (if s[0] { 1nat } else { 0nat }) + 2 * pack(s.drop_first().push(b)));
    }
}

pub proof fn lemma_bit_of_half(n: nat, i: nat)
    ensures
        bit_of(n, i + 1) == bit_of(n / 2, i),
{
    lemma_pow2_unfold(i + 1);
    lemma_pow2_pos(i);
    lemma_div_denominator(n as int, 2, pow2(i) as int);
}

pub proof fn lemma_pack_nat_bits(n: nat, k: nat)
    ensures
        pack(nat_bits(n, k)) == n % pow2(k),
    decreases k,
{
    lemma_pow2_pos(k);
    if k == 0 {
        lemma2_to64();
    } else {
        let s = nat_bits(n, k);
        assert(s.drop_first() =~= nat_bits(n / 2, (k - 1) as nat)) by {
            assert forall|i: int| 0 <= i < k - 1 implies s.drop_first()[i] == nat_bits(n / 2, (k - 1) as nat)[i] by {
                lemma_bit_of_half(n, i as nat);
            }
        }
        lemma_pack_nat_bits(n / 2, (k - 1) as nat);
        lemma_pow2_unfold(k);
        lemma_pow2_pos((k - 1) as nat);
        lemma_mod_breakdown(n as int, 2, pow2((k - 1) as nat) as int);
        lemma2_to64();
        assert(bit_of(n, 0) == (n % 2 == 1));
    }
}

pub proof fn lemma_bit_length_bound(n: nat)
    ensures
        n < pow2(bit_length(n)),
        bit_length(n) > 0 ==> n >= pow2((bit_length(n) - 1) as nat),
    decreases n,
{
    lemma2_to64();
    if n > 0 {
        lemma_bit_length_bound(n / 2);
        lemma_pow2_unfold(bit_length(n));
        if bit_length(n / 2) > 0 {
            lemma_pow2_unfold(bit_length(n / 2));
        }
    }
}

/// `bit_length(n) <= j` exactly when `n < 2^j`.
pub proof fn lemma_bit_length_le(n: nat, j: nat)
    ensures
        (bit_length(n) <= j) == (n < pow2(j)),
{
    lemma_bit_length_bound(n);
    if bit_length(n) <= j {
        if bit_length(n) < j {
            vstd::arithmetic::power2::lemma_pow2_strictly_increases(bit_length(n), j);
        }
    } else {
        if bit_length(n) - 1 > j {
            vstd::arithmetic::power2::lemma_pow2_strictly_increases(j, (bit_length(n) - 1) as nat);
        }
    }
}

pub proof fn lemma_bit_length_div128(n: nat)
    requires
        n >= 128,
    ensures
        bit_length(n / 128) == bit_length(n) - 7,
        bit_length(n) > 7,
{
    reveal_with_fuel(bit_length, 8);
    assert(n / 128 == n / 2 / 2 / 2 / 2 / 2 / 2 / 2) by {
        lemma_div_denominator(n as int, 2, 2);
        lemma_div_denominator(n as int, 4, 2);
        lemma_div_denominator(n as int, 8, 2);
        lemma_div_denominator(n as int, 16, 2);
        lemma_div_denominator(n as int, 32, 2);
        lemma_div_denominator(n as int, 64, 2);
    }
    assert(n / 2 > 0);
    assert(n / 2 / 2 > 0);
    assert(n / 2 / 2 / 2 > 0);
    assert(n / 2 / 2 / 2 / 2 > 0);
    assert(n / 2 / 2 / 2 / 2 / 2 > 0);
    assert(n / 2 / 2 / 2 / 2 / 2 / 2 > 0);
}

pub proof fn lemma_nat_bits_skip7(n: nat, k: nat)
    requires
        k >= 7,
    ensures
        nat_bits(n, k).skip(7) =~= nat_bits(n / 128, (k - 7) as nat),
        nat_bits(n, k).take(7) =~= nat_bits(n, 7),
{
    assert forall|i: int| 0 <= i < k - 7 implies nat_bits(n, k).skip(7)[i] == nat_bits(n / 128, (k - 7) as nat)[i] by {
        lemma_pow2_adds(7, i as nat);
        lemma2_to64();
        lemma_pow2_pos(i as nat);
        lemma_div_denominator(n as int, 128, pow2(i as nat) as int);
        assert(i + 7 == 7 + i);
    }
}

/// The bits of `n`, in groups of 7, are the encoding of `n`.
pub proof fn lemma_vlq_nat_emit(n: nat)
    ensures
        vlq_nat(n) == emit(nat_bits(n, bit_length(n))),
    decreases n,
{
    let k = bit_length(n);
    let s = nat_bits(n, k);
    lemma2_to64();
    if n < 128 {
        lemma_bit_length_le(n, 7);
        lemma_pack_nat_bits(n, k);
        lemma_bit_length_bound(n);
        lemma_pow2_pos(k);
        vstd::arithmetic::div_mod::lemma_small_mod(n, pow2(k));
        assert(emit(s) == seq![pack(s) as u8]);
    } else {
        lemma_bit_length_div128(n);
        lemma_nat_bits_skip7(n, k);
        lemma_pack_nat_bits(n, 7);
        lemma_vlq_nat_emit(n / 128);
        assert(emit(s) == seq![(pack(s.take(7)) + 128) as u8] + emit(s.skip(7)));
    }
}

pub proof fn lemma_zero_bits_pack(k: nat)
    ensures
        pack(zero_bits(k)) == 0,
    decreases k,
{
    if k > 0 {
        assert(zero_bits(k).drop_first() =~= zero_bits((k - 1) as nat));
        lemma_zero_bits_pack((k - 1) as nat);
    }
}

/// A stream of at most 7 bits ending in the sign: the pack of bits, zero
/// padding and a last bit at position 6.
proof fn lemma_pack_small_signed(m: nat, k: nat, p: nat, neg: bool)
    requires
        k + p == 6,
        m < pow2(k),
    ensures
        pack(nat_bits(m, k) + zero_bits(p) + seq![neg]) == m + if neg { 64nat } else { 0nat },
{
    let a = nat_bits(m, k);
    let z = zero_bits(p);
    lemma_pack_append(a, z);
    lemma_pack_push(a + z, neg);
    assert(a + z + seq![neg] =~= (a + z).push(neg));
    lemma_zero_bits_pack(p);
    lemma_pack_nat_bits(m, k);
    lemma_pow2_pos(k);
    vstd::arithmetic::div_mod::lemma_small_mod(m, pow2(k));
    lemma2_to64();
}

pub proof fn lemma_pack_append(a: Seq<bool>, b: Seq<bool>)
    ensures
        pack(a + b) == pack(a) + pow2(a.len()) * pack(b),
    decreases a.len(),
{
    lemma2_to64();
    if a.len() == 0 {
        assert(a + b =~= b);
    } else {
        assert((a + b).drop_first() =~= a.drop_first() + b);
        lemma_pack_append(a.drop_first(), b);
        lemma_pow2_unfold(a.len());
        vstd::arithmetic::mul::lemma_mul_is_associative(2, pow2((a.len() - 1) as nat) as int, pack(b) as int);
    }
}

/// The signed stream, in groups of 7, is the signed encoding.
pub proof fn lemma_vlq_signed_emit(m: nat, neg: bool)
    ensures
        vlq_signed_bits(m, neg) == emit(signed_stream(m, neg)),
    decreases m,
{
    let k = bit_length(m);
    let p = sign_padding(k);
    let s = signed_stream(m, neg);
    lemma2_to64();
    if m < 64 {
        lemma_bit_length_le(m, 6);
        lemma_bit_length_bound(m);
        assert(k % 7 == k);
        assert(p == 6 - k);
        lemma_pack_small_signed(m, k, p, neg);
    } else {
        lemma_bit_length_le(m, 6);
        if m < 128 {
            lemma_bit_length_le(m, 7);
            assert(k == 7);
            assert(p == 6);
            assert(m / 128 == 0);
            assert(bit_length(0) == 0);
            assert(s.len() == 14);
            assert(s.take(7) =~= nat_bits(m, 7));
            lemma_pack_nat_bits(m, 7);
            assert(s.skip(7) =~= nat_bits(0, 0) + zero_bits(6) + seq![neg]);
            lemma_pack_small_signed(0, 0, 6, neg);
            assert(signed_stream(0, neg) =~= s.skip(7));
            lemma_vlq_signed_emit(0, neg);
            assert(m % 128 == m);
        } else {
            lemma_bit_length_div128(m);
            lemma_nat_bits_skip7(m, k);
            assert(sign_padding((k - 7) as nat) == p);
            assert(s.take(7) =~= nat_bits(m, k).take(7));
            assert(s.skip(7) =~= nat_bits(m, k).skip(7) + zero_bits(p) + seq![neg]);
            assert(s.skip(7) =~= signed_stream(m / 128, neg));
            lemma_pack_nat_bits(m, 7);
            lemma_vlq_signed_emit(m / 128, neg);
        }
    }
}

/// Adding one bit to a non-empty stream either grows its last byte or, when
/// that byte is full, marks it as continued and starts a new byte.
pub proof fn lemma_emit_push(s: Seq<bool>, b: bool)
    requires
        s.len() > 0,
    ensures
        s.len() % 7 != 0 ==> emit(s.push(b)) == emit(s).drop_last().push(
            (emit(s).last() + if b { pow2(s.len() % 7) } else { 0 }) as u8,
        ),
        s.len() % 7 == 0 ==> emit(s.push(b)) == emit(s).drop_last().push(
            (emit(s).last() + 128) as u8,
        ).push(if b { 1u8 } else { 0u8 }),
        emit(s).last() < pow2((((s.len() - 1) % 7) + 1) as nat),
    decreases s.len(),
{
    lemma2_to64();
    if s.len() <= 7 {
        lemma_pack_bound(s);
        lemma_pack_push(s, b);
        if s.len() < 7 {
            vstd::arithmetic::power2::lemma_pow2_strictly_increases(s.len(), 7);
        } else {
            assert(s.push(b).take(7) =~= s);
            assert(s.push(b).skip(7) =~= seq![b]);
            assert(seq![b].drop_first() =~= Seq::<bool>::empty());
            assert(pack(Seq::<bool>::empty()) == 0);
            assert(pack(seq![b]) == if b { 1nat } else { 0nat });
            assert(emit(seq![b]) == seq![if b { 1u8 } else { 0u8 }]);
            assert(emit(s.push(b)) == seq![(pack(s) + 128) as u8] + emit(seq![b]));
            assert(emit(s) == seq![pack(s) as u8]);
            assert(emit(s.push(b)) =~= emit(s).drop_last().push((emit(s).last() + 128) as u8).push(
                if b { 1u8 } else { 0u8 },
            ));
        }
    } else {
        let t = s.skip(7);
        assert(s.push(b).take(7) =~= s.take(7));
        assert(s.push(b).skip(7) =~= t.push(b));
        lemma_emit_push(t, b);
        assert((s.len() - 1) % 7 == (t.len() - 1) % 7) by {
            lemma_fundamental_div_mod(s.len() - 1, 7);
            lemma_fundamental_div_mod(t.len() - 1, 7);
            lemma_fundamental_div_mod_converse(s.len() - 1, 7, (t.len() - 1) / 7 + 1, (t.len() - 1) % 7);
        }
        assert(s.len() % 7 == t.len() % 7) by {
            lemma_fundamental_div_mod(t.len() as int, 7);
            lemma_fundamental_div_mod_converse(s.len() as int, 7, (t.len() / 7 + 1) as int, (t.len() % 7) as int);
        }
        let head = seq![(pack(s.take(7)) + 128) as u8];
        assert(emit(s) == head + emit(t));
        assert(emit(s.push(b)) == head + emit(t.push(b)));
        assert(emit(s).last() == emit(t).last());
        assert(emit(s).drop_last() =~= head + emit(t).drop_last());
        if s.len() % 7 != 0 {
            assert(emit(s.push(b)) =~= emit(s).drop_last().push(
                (emit(s).last() + if b { pow2(s.len() % 7) } else { 0 }) as u8,
            ));
        } else {
            assert(emit(s.push(b)) =~= emit(s).drop_last().push((emit(s).last() + 128) as u8).push(
                if b { 1u8 } else { 0u8 },
            ));
        }
    }
}

// ---------------------------------------------------------------------------
// Round trips.
/// Decoding the encoding of `n`, whatever follows it, gives back `n` and the
/// length of its encoding.
pub proof fn lemma_unvlq_vlq_nat(n: nat, rest: Seq<u8>)
    ensures
        unvlq_nat(vlq_nat(n) + rest) == Some((n, vlq_nat(n).len())),
    decreases n,
{
    let s = vlq_nat(n) + rest;
    if n >= 128 {
        lemma_unvlq_vlq_nat(n / 128, rest);
        assert(s.drop_first() =~= vlq_nat(n / 128) + rest);
        lemma_fundamental_div_mod(n as int, 128);
    }
}

pub proof fn lemma_unvlq_vlq_signed(m: nat, neg: bool, rest: Seq<u8>)
    ensures
        unvlq_signed_bits(vlq_signed_bits(m, neg) + rest) == Some((m, neg, vlq_signed_bits(m, neg).len())),
    decreases m,
{
    let s = vlq_signed_bits(m, neg) + rest;
    if m >= 64 {
        lemma_unvlq_vlq_signed(m / 128, neg, rest);
        assert(s.drop_first() =~= vlq_signed_bits(m / 128, neg) + rest);
        lemma_fundamental_div_mod(m as int, 128);
        if m < 128 {
            assert(m / 128 == 0);
        }
    }
}

/// Decoding the encoding of `k`, whatever follows it, gives back `k`.
pub proof fn lemma_unvlq_vlq_int(k: int, rest: Seq<u8>)
    ensures
        unvlq_int(vlq_int(k) + rest) == Some((k, vlq_int(k).len())),
{
    if k < 0 {
        lemma_unvlq_vlq_signed((-k - 1) as nat, true, rest);
    } else {
        lemma_unvlq_vlq_signed(k as nat, false, rest);
    }
}

// ---------------------------------------------------------------------------
// Decoding byte by byte.
/// The low 7 bits of each of the first `q` bytes of `s`, least significant first.
pub open spec fn low7_value(s: Seq<u8>, q: nat) -> nat
    decreases q,
{
    if q == 0 || s.len() == 0 {
        0
    } else {
        (s[0] % 128) as nat + 128 * low7_value(s.drop_first(), (q - 1) as nat)
    }
}

pub proof fn lemma_low7_push(s: Seq<u8>, q: nat)
    requires
        q < s.len(),
    ensures
        low7_value(s, q + 1) == low7_value(s, q) + (s[q as int] % 128) as nat * pow2(7 * q),
    decreases q,
{
    lemma2_to64();
    if q == 0 {
        assert(low7_value(s.drop_first(), 0) == 0);
    } else {
        let t = s.drop_first();
        lemma_low7_push(t, (q - 1) as nat);
        assert(t[q - 1] == s[q as int]);
        lemma_pow2_adds(7, (7 * q - 7) as nat);
        assert(7 + (7 * q - 7) == 7 * q);
        let x = low7_value(t, (q - 1) as nat);
        let y = (s[q as int] % 128) as nat;
        let p = pow2((7 * (q - 1)) as nat);
        assert((7 * (q - 1)) as nat == (7 * q - 7) as nat);
        assert(128 * (x + y * p) == 128 * x + y * (128 * p)) by (nonlinear_arith);
    }
}

/// Every byte has its high bit set: no `nat` or `int` ends within `s`.
pub proof fn lemma_unvlq_none(s: Seq<u8>)
    requires
        forall|j: int| 0 <= j < s.len() ==> s[j] >= 128,
    ensures
        unvlq_nat(s) is None,
        unvlq_signed_bits(s) is None,
    decreases s.len(),
{
    if s.len() > 0 {
        lemma_unvlq_none(s.drop_first());
    }
}

/// `s` starts with `q` continued bytes and then a last byte.
pub proof fn lemma_unvlq_prefix(s: Seq<u8>, q: nat)
    requires
        q < s.len(),
        forall|j: int| 0 <= j < q ==> s[j] >= 128,
        s[q as int] < 128,
    ensures
        unvlq_nat(s) == Some((low7_value(s, q) + s[q as int] as nat * pow2(7 * q), q + 1)),
        unvlq_signed_bits(s) == Some(
            (low7_value(s, q) + (s[q as int] % 64) as nat * pow2(7 * q), s[q as int] >= 64, q + 1),
        ),
    decreases q,
{
    lemma2_to64();
    if q > 0 {
        let t = s.drop_first();
        lemma_unvlq_prefix(t, (q - 1) as nat);
        assert(t[q - 1] == s[q as int]);
        lemma_pow2_adds(7, (7 * q - 7) as nat);
        assert(7 + (7 * q - 7) == 7 * q);
        assert((7 * (q - 1)) as nat == (7 * q - 7) as nat);
        let x = low7_value(t, (q - 1) as nat);
        let p = pow2((7 * q - 7) as nat);
        let y = s[q as int] as nat;
        let z = (s[q as int] % 64) as nat;
        assert(128 * (x + y * p) == 128 * x + y * (128 * p)) by (nonlinear_arith);
        assert(128 * (x + z * p) == 128 * x + z * (128 * p)) by (nonlinear_arith);
        assert(s[0] % 128 == s[0] - 128);
        assert(low7_value(s, q) == (s[0] % 128) as nat + 128 * x);
        assert(pow2(7 * q) == 128 * p);
        assert(y * pow2(7 * q) == y * (128 * p));
        assert(z * pow2(7 * q) == z * (128 * p));
        assert(unvlq_nat(t) == Some((x + y * p, q)));
        assert(unvlq_nat(s) == Some((((s[0] - 128) + 128 * (x + y * p)) as nat, q + 1)));
        assert(unvlq_signed_bits(t) == Some((x + z * p, s[q as int] >= 64, q)));
        assert(unvlq_signed_bits(s) == Some((((s[0] - 128) + 128 * (x + z * p)) as nat, s[q as int] >= 64, q + 1)));
    } else {
        assert(low7_value(s, 0) == 0);
        assert(pow2(0) == 1);
        assert(s[0] as nat * pow2(0) == s[0] as nat);
        assert((s[0] % 64) as nat * pow2(0) == (s[0] % 64) as nat);
    }
}

/// A decoded number takes no more bytes than there are.
pub proof fn lemma_unvlq_len(s: Seq<u8>)
    ensures
        unvlq_nat(s) matches Some((v, l)) ==> 1 <= l <= s.len(),
        unvlq_signed_bits(s) matches Some((v, neg, l)) ==> 1 <= l <= s.len(),
        unvlq_int(s) matches Some((v, l)) ==> 1 <= l <= s.len(),
    decreases s.len(),
{
    if s.len() > 0 {
        lemma_unvlq_len(s.drop_first());
    }
}

/// The encoding of a `nat` is in the documented form: every byte but the
/// last has its high bit set, the last does not, and the low 7 bits of the
/// bytes, least significant group first, make up the number.
pub proof fn lemma_vlq_nat_form(n: nat)
    ensures
        vlq_nat(n).len() >= 1,
        forall|i: int| 0 <= i < vlq_nat(n).len() - 1 ==> #[trigger] vlq_nat(n)[i] >= 128,
        vlq_nat(n).last() < 128,
        low7_value(vlq_nat(n), vlq_nat(n).len()) == n,
    decreases n,
{
    if n >= 128 {
        lemma_vlq_nat_form(n / 128);
        let s = vlq_nat(n);
        let t = vlq_nat(n / 128);
        assert(s.drop_first() =~= t);
        assert forall|i: int| 0 <= i < s.len() - 1 implies #[trigger] s[i] >= 128 by {
            if i > 0 {
                assert(s[i] == t[i - 1]);
            }
        }
        assert(s.last() == t.last());
        assert(s[0] % 128 == n % 128);
        assert(low7_value(s, s.len()) == (s[0] % 128) as nat + 128 * low7_value(t, t.len()));
    } else {
        let s = vlq_nat(n);
        assert(s.drop_first().len() == 0);
        assert(low7_value(s, 1) == (s[0] % 128) as nat + 128 * low7_value(s.drop_first(), 0));
    }
}

/// The bits of the last byte of a signed encoding other than its high bit
/// and its sign bit: the low 6 bits for the last byte, the low 7 for the
/// others, least significant group first.
pub open spec fn signed_groups_value(s: Seq<u8>) -> nat
    decreases s.len(),
{
    if s.len() == 0 {
        0
    } else if s.len() == 1 {
        (s[0] % 64) as nat
    } else {
        (s[0] % 128) as nat + 128 * signed_groups_value(s.drop_first())
    }
}

/// The encoding of an `int` is in the documented form: every byte but the
/// last has its high bit set, the last does not; bit 6 of the last byte is
/// set exactly for a negative number; and the other bits, least significant
/// group first, make up the number when it is not negative and minus the
/// number minus one when it is.
pub proof fn lemma_vlq_int_form(k: int)
    ensures
        vlq_int(k).len() >= 1,
        forall|i: int| 0 <= i < vlq_int(k).len() - 1 ==> #[trigger] vlq_int(k)[i] >= 128,
        vlq_int(k).last() < 128,
        (vlq_int(k).last() >= 64) == (k < 0),
        signed_groups_value(vlq_int(k)) == (if k < 0 { -k - 1 } else { k }),
{
    if k < 0 {
        lemma_vlq_signed_form((-k - 1) as nat, true);
    } else {
        lemma_vlq_signed_form(k as nat, false);
    }
}

proof fn lemma_vlq_signed_form(m: nat, neg: bool)
    ensures
        vlq_signed_bits(m, neg).len() >= 1,
        forall|i: int| 0 <= i < vlq_signed_bits(m, neg).len() - 1 ==> #[trigger] vlq_signed_bits(m, neg)[i] >= 128,
        vlq_signed_bits(m, neg).last() < 128,
        (vlq_signed_bits(m, neg).last() >= 64) == neg,
        signed_groups_value(vlq_signed_bits(m, neg)) == m,
    decreases m,
{
    if m >= 64 {
        lemma_vlq_signed_form(m / 128, neg);
        let s = vlq_signed_bits(m, neg);
        let t = vlq_signed_bits(m / 128, neg);
        assert(s.drop_first() =~= t);
        assert forall|i: int| 0 <= i < s.len() - 1 implies #[trigger] s[i] >= 128 by {
            if i > 0 {
                assert(s[i] == t[i - 1]);
            }
        }
        assert(s.last() == t.last());
        assert(s[0] % 128 == m % 128);
    } else {
        let b = (m + if neg { 64nat } else { 0nat }) as u8;
        assert(b % 64 == m);
    }
}

} // verus!

