//! The encoder and decoders of the variable-length `nat` and `int` formats.
use vstd::prelude::*;
use vstd::arithmetic::power2::{pow2, lemma_pow2_pos, lemma_pow2_unfold, lemma_pow2_adds, lemma2_to64};
use crate::bignum::{BigNat, BigInt, Sign, bit_of, bit_length};
use crate::runtime::{FormatReader, FormatWriter};
use crate::vlq_spec::{low7_value, lemma_low7_push, lemma_unvlq_none, lemma_unvlq_prefix, unvlq_nat, unvlq_int, emit, pack, nat_bits, zero_bits, sign_padding, signed_stream, vlq_nat, vlq_signed_bits, lemma_emit_push, lemma_vlq_nat_emit, lemma_vlq_signed_emit};

verus! {

/// Readers longer than this cannot be decoded from: the bit index of the
/// decoded number is a `u64`.
pub const MAX_VLQ_INPUT: u64 = 0x1000_0000_0000_0000;

/// The bytes that `encode_vlq` writes for the magnitude `m` with `sign`.
pub open spec fn vlq_encoding(sign: Option<Sign>, m: nat) -> Seq<u8> {
    match sign {
        None => vlq_nat(m),
        Some(Sign::Minus) => vlq_signed_bits((m - 1) as nat, true),
        Some(_) => vlq_signed_bits(m, false),
    }
}

struct EncodeState {
    out_bit_index: u32,
    current_byte: u8,
}

/// The encoder's state after writing the stream `s` on top of `base`: the
/// completed bytes are written, the last one is held back.
spec fn state_inv(written: Seq<u8>, base: Seq<u8>, s: Seq<bool>, st: EncodeState) -> bool {
    if s.len() == 0 {
        &&& st.out_bit_index == 0
        &&& st.current_byte == 0
        &&& written == base
    } else {
        &&& st.out_bit_index == ((s.len() - 1) % 7) + 1
        &&& written == base + emit(s).drop_last()
        &&& st.current_byte == emit(s).last()
    }
}

proof fn lemma_shift_u8(idx: u32)
    requires
        idx < 8,
    ensures
        (1u8 << idx) as nat == pow2(idx as nat),
{
    lemma2_to64();
    if idx == 0 {
        assert(1u8 << idx == 1u8) by (bit_vector) requires idx == 0u32;
    } else if idx == 1 {
        assert(1u8 << idx == 2u8) by (bit_vector) requires idx == 1u32;
    } else if idx == 2 {
        assert(1u8 << idx == 4u8) by (bit_vector) requires idx == 2u32;
    } else if idx == 3 {
        assert(1u8 << idx == 8u8) by (bit_vector) requires idx == 3u32;
    } else if idx == 4 {
        assert(1u8 << idx == 16u8) by (bit_vector) requires idx == 4u32;
    } else if idx == 5 {
        assert(1u8 << idx == 32u8) by (bit_vector) requires idx == 5u32;
    } else if idx == 6 {
        assert(1u8 << idx == 64u8) by (bit_vector) requires idx == 6u32;
    } else {
        assert(1u8 << idx == 128u8) by (bit_vector) requires idx == 7u32;
    }
}

/// Bit `j` of a byte, as the decoder reads it.
proof fn lemma_u8_bit(b: u8, j: u32)
    requires
        j < 8,
    ensures
        ((b & (1u8 << j)) != 0) == bit_of(b as nat, j as nat),
{
    lemma_shift_u8(j);
    assert(((b & (1u8 << j)) != 0) == (((b / (1u8 << j)) % 2) == 1)) by (bit_vector)
        requires
            j < 8,
    ;
}

/// Writes one bit of the stream.
fn put_bit<W: FormatWriter>(
    writer: &mut W,
    state: &mut EncodeState,
    b: bool,
    Ghost(base): Ghost<Seq<u8>>,
    Ghost(s): Ghost<Seq<bool>>,
) -> (r: Result<(), W::Error>)
    requires
        state_inv(old(writer).written(), base, s, *old(state)),
    ensures
        r is Ok ==> state_inv(final(writer).written(), base, s.push(b), *final(state)),
        W::infallible() ==> r is Ok,
{
    proof {
        lemma2_to64();
        if s.len() > 0 {
            lemma_emit_push(s, b);
        }
    }
    if state.out_bit_index > 6 {
        let cur = state.current_byte;
        assert(cur < 128);
        assert((cur | 0x80u8) == cur + 128) by (bit_vector) requires cur < 128u8;
        writer.write_u8(state.current_byte | 0x80)?;
        state.out_bit_index = 0;
        state.current_byte = 0;
        assert(s.len() % 7 == 0);
    }
    if b {
        let idx = state.out_bit_index;
        let cur = state.current_byte;
        proof {
            lemma_shift_u8(idx);
        }
        assert((cur | (1u8 << idx)) == cur + (1u8 << idx)) by (bit_vector)
            requires
                idx < 7,
                cur < (1u8 << idx),
        ;
        state.current_byte = state.current_byte | (1 << state.out_bit_index);
    }
    state.out_bit_index = state.out_bit_index + 1;
    proof {
        if s.len() == 0 {
            assert(s.push(b) =~= seq![b]);
            assert(seq![b].drop_first() =~= Seq::<bool>::empty());
            assert(pack(Seq::<bool>::empty()) == 0);
            assert(emit(seq![b]) == seq![pack(seq![b]) as u8]);
            assert(emit(s.push(b)).drop_last() =~= Seq::<u8>::empty());
            assert(writer.written() =~= base + emit(s.push(b)).drop_last());
        } else if s.len() % 7 == 0 {
            let e = emit(s);
            assert(writer.written() =~= base + emit(s.push(b)).drop_last());
        } else {
            assert(writer.written() =~= base + emit(s.push(b)).drop_last());
        }
    }
    Ok(())
}

/// Writes `n` as a `nat` (no sign) or as an `int` (with a sign): groups of 7
/// bits, least significant first, with the high bit of each byte set when
/// more bytes follow; a signed number ends with 6 bits and the sign bit. A
/// negative number is given by its magnitude and written as magnitude - 1.
pub fn encode_vlq<W: FormatWriter>(writer: &mut W, sign: Option<Sign>, n: &BigNat) -> (r: Result<(), W::Error>)
    requires
        sign == Some(Sign::Minus) ==> n@ >= 1,
    ensures
        r is Ok ==> final(writer).written() == old(writer).written() + vlq_encoding(sign, n@),
        W::infallible() ==> r is Ok,
{
    let n = match sign {
        Some(Sign::Minus) => n.sub_one(),
        _ => n.copy(),
    };
    let ghost base = old(writer).written();
    let mut state = EncodeState { out_bit_index: 0, current_byte: 0 };
    let nbits = n.bits();
    let mut i: u64 = 0;
    assert(nat_bits(n@, 0) =~= Seq::<bool>::empty());
    while i < nbits
        invariant
            i <= nbits,
            nbits == bit_length(n@),
            state_inv(writer.written(), base, nat_bits(n@, i as nat), state),
        decreases nbits - i,
    {
        let b = n.bit(i);
        put_bit(writer, &mut state, b, Ghost(base), Ghost(nat_bits(n@, i as nat)))?;
        assert(nat_bits(n@, i as nat).push(b) =~= nat_bits(n@, (i + 1) as nat));
        i = i + 1;
    }
    let ghost k = bit_length(n@);
    let ghost bits = nat_bits(n@, k);
    let ghost mut stream = bits;
    if let Some(sign) = sign {
        let neg = match sign {
            Sign::Minus => true,
            _ => false,
        };
        let ghost p = sign_padding(k);
        assert(stream =~= bits + zero_bits(0));
        while state.out_bit_index != 6
            invariant
                state_inv(writer.written(), base, stream, state),
                stream.len() >= k,
                stream =~= bits + zero_bits((stream.len() - k) as nat),
                stream.len() - k <= p,
                p == sign_padding(k),
                bits.len() == k,
            decreases (if state.out_bit_index <= 6 { 6 - state.out_bit_index } else { 7 }),
        {
            assert(stream.len() - k != p) by {
                if stream.len() - k == p {
                    assert(stream.len() > 0);
                }
            }
            put_bit(writer, &mut state, false, Ghost(base), Ghost(stream))?;
            proof {
                assert(stream.push(false) =~= bits + zero_bits((stream.len() + 1 - k) as nat));
                stream = stream.push(false);
            }
        }
        assert(stream.len() - k == p) by {
            if stream.len() == 0 {
                assert(false);
            }
        }
        put_bit(writer, &mut state, neg, Ghost(base), Ghost(stream))?;
        proof {
            assert(stream.push(neg) =~= signed_stream(n@, neg));
            stream = stream.push(neg);
        }
    }
    writer.write_u8(state.current_byte)?;
    proof {
        if stream.len() == 0 {
            assert(pack(Seq::<bool>::empty()) == 0);
            assert(emit(stream) == seq![0u8]);
        }
        assert(writer.written() =~= base + emit(stream));
        match sign {
            None => {
                lemma_vlq_nat_emit(n@);
            },
            Some(sg) => {
                let neg = sg == Sign::Minus;
                lemma_vlq_signed_emit(n@, neg);
            },
        }
    }
    Ok(())
}

/// Sets bits `i .. i + count` of `n`, all zero so far, to the low `count`
/// bits of `b`, advancing `i`.
fn read_bits(n: &mut BigNat, b: u8, count: u32, i: &mut u64)
    requires
        count <= 7,
        old(n)@ < pow2(*old(i) as nat),
        *old(i) + count <= u64::MAX,
    ensures
        final(n)@ == old(n)@ + (b as nat % pow2(count as nat)) * pow2(*old(i) as nat),
        *final(i) == *old(i) + count,
        final(n)@ < pow2(*final(i) as nat),
{
    let ghost i0: nat = *i as nat;
    let ghost base: nat = n@;
    let mut j: u32 = 0;
    proof {
        lemma2_to64();
        assert(b as nat % 1 == 0);
    }
    while j < count
        invariant
            j <= count <= 7,
            *i == i0 + j,
            i0 + count <= u64::MAX,
            n@ == base + (b as nat % pow2(j as nat)) * pow2(i0),
            n@ < pow2(*i as nat),
        decreases count - j,
    {
        let set = (b & (1u8 << j)) != 0;
        proof {
            lemma_u8_bit(b, j);
            lemma_pow2_pos(*i as nat);
            assert(n@ / pow2(*i as nat) == 0) by {
                vstd::arithmetic::div_mod::lemma_basic_div(n@ as int, pow2(*i as nat) as int);
            }
            assert(!bit_of(n@, *i as nat));
            lemma_pow2_pos(j as nat);
            vstd::arithmetic::div_mod::lemma_mod_breakdown(b as int, pow2(j as nat) as int, 2);
            lemma_pow2_unfold((j + 1) as nat);
            lemma_pow2_adds(i0, j as nat);
            lemma_pow2_unfold((*i + 1) as nat);
            let lo = b as nat % pow2(j as nat);
            let bit: nat = if set { 1 } else { 0 };
            assert(bit == (b as nat / pow2(j as nat)) % 2);
            assert(pow2(j as nat) * 2 == pow2((j + 1) as nat));
            assert(b as nat % pow2((j + 1) as nat) == pow2(j as nat) * bit + lo);
            let pi = pow2(i0);
            let pj = pow2(j as nat);
            assert((pj * bit + lo) * pi == lo * pi + bit * (pi * pj)) by (nonlinear_arith);
            assert(pi * pj == pow2((i0 + j) as nat));
        }
        n.set_bit(*i, set);
        *i = *i + 1;
        j = j + 1;
    }
}

/// Reads a `nat`: bytes with the high bit set carry 7 more bits each, the
/// first byte without it carries the last 7.
pub fn decoede_vlq_unsigned<R: FormatReader>(reader: &mut R) -> (r: Result<BigNat, R::Error>)
    requires
        old(reader).remaining().len() <= MAX_VLQ_INPUT,
    ensures
        r matches Ok(n) ==> (unvlq_nat(old(reader).remaining()) matches Some((v, l)) && n@ == v
            && final(reader).remaining() == old(reader).remaining().skip(l as int)),
        R::infallible() ==> (r is Ok <==> unvlq_nat(old(reader).remaining()) is Some),
        r matches Err(e) ==> final(reader).failures() == old(reader).failures().push(e),
        r is Ok ==> final(reader).failures() == old(reader).failures(),
{
    let ghost s = old(reader).remaining();
    proof {
        if s.len() == 0 {
            lemma_unvlq_none(s);
        }
    }
    let mut b = reader.read_u8()?;
    let mut i: u64 = 0;
    let mut n = BigNat::zero();
    let ghost mut q: int = 0;
    proof {
        lemma2_to64();
    }
    while (b & 0x80) != 0
        invariant
            0 <= q < s.len(),
            s == old(reader).remaining(),
            reader.failures() == old(reader).failures(),
            s.len() <= MAX_VLQ_INPUT,
            b == s[q],
            reader.remaining() == s.skip(q + 1),
            i == 7 * q,
            forall|j: int| 0 <= j < q ==> s[j] >= 128,
            n@ == low7_value(s, q as nat),
            n@ < pow2(i as nat),
        decreases s.len() - q,
    {
        assert(b >= 128) by (bit_vector) requires (b & 0x80u8) != 0u8;
        let ghost before = reader.remaining();
        read_bits(&mut n, b, 7, &mut i);
        proof {
            lemma2_to64();
            lemma_low7_push(s, q as nat);
            assert(b as nat % pow2(7) == (b % 128) as nat);
            assert(7 * (q + 1) == 7 * q + 7);
            if before.len() == 0 {
                assert(s.len() == q + 1);
                assert forall|j: int| 0 <= j < s.len() implies s[j] >= 128 by {
                    if j < q {
                    } else {
                        assert(j == q);
                    }
                }
                lemma_unvlq_none(s);
            }
        }
        b = reader.read_u8()?;
        proof {
            assert(before[0] == s[q + 1]);
            assert(s.skip(q + 1).skip(1) =~= s.skip(q + 2));
            q = q + 1;
        }
    }
    assert(b < 128) by (bit_vector) requires (b & 0x80u8) == 0u8;
    read_bits(&mut n, b, 7, &mut i);
    proof {
        lemma_small_mod_u8(b);
        lemma_unvlq_prefix(s, q as nat);
    }
    Ok(n)
}

proof fn lemma_small_mod_u8(b: u8)
    requires
        b < 128,
    ensures
        b as nat % pow2(7) == b as nat,
        b as nat % pow2(6) == (b % 64) as nat,
{
    lemma2_to64();
}

/// Reads an `int`: like a `nat`, but the last byte carries 6 bits and the
/// sign; with the sign set, the value is minus the bits, minus one.
pub fn decoede_vlq_signed<R: FormatReader>(reader: &mut R) -> (r: Result<BigInt, R::Error>)
    requires
        old(reader).remaining().len() <= MAX_VLQ_INPUT,
    ensures
        r matches Ok(k) ==> (unvlq_int(old(reader).remaining()) matches Some((v, l)) && k@ == v
            && final(reader).remaining() == old(reader).remaining().skip(l as int)),
        R::infallible() ==> (r is Ok <==> unvlq_int(old(reader).remaining()) is Some),
        r matches Err(e) ==> final(reader).failures() == old(reader).failures().push(e),
        r is Ok ==> final(reader).failures() == old(reader).failures(),
{
    let ghost s = old(reader).remaining();
    proof {
        if s.len() == 0 {
            lemma_unvlq_none(s);
        }
    }
    let mut b = reader.read_u8()?;
    let mut i: u64 = 0;
    let mut n = BigNat::zero();
    let ghost mut q: int = 0;
    proof {
        lemma2_to64();
    }
    while (b & 0x80) != 0
        invariant
            0 <= q < s.len(),
            s == old(reader).remaining(),
            reader.failures() == old(reader).failures(),
            s.len() <= MAX_VLQ_INPUT,
            b == s[q],
            reader.remaining() == s.skip(q + 1),
            i == 7 * q,
            forall|j: int| 0 <= j < q ==> s[j] >= 128,
            n@ == low7_value(s, q as nat),
            n@ < pow2(i as nat),
        decreases s.len() - q,
    {
        assert(b >= 128) by (bit_vector) requires (b & 0x80u8) != 0u8;
        let ghost before = reader.remaining();
        read_bits(&mut n, b, 7, &mut i);
        proof {
            lemma2_to64();
            lemma_low7_push(s, q as nat);
            assert(b as nat % pow2(7) == (b % 128) as nat);
            assert(7 * (q + 1) == 7 * q + 7);
            if before.len() == 0 {
                assert(s.len() == q + 1);
                assert forall|j: int| 0 <= j < s.len() implies s[j] >= 128 by {
                    if j < q {
                    } else {
                        assert(j == q);
                    }
                }
                lemma_unvlq_none(s);
            }
        }
        b = reader.read_u8()?;
        proof {
            assert(before[0] == s[q + 1]);
            assert(s.skip(q + 1).skip(1) =~= s.skip(q + 2));
            q = q + 1;
        }
    }
    assert(b < 128) by (bit_vector) requires (b & 0x80u8) == 0u8;
    read_bits(&mut n, b, 6, &mut i);
    let signbit = (b & 0x40) != 0;
    assert(signbit == (b >= 64)) by (bit_vector) requires b < 128u8, signbit == ((b & 0x40u8) != 0u8);
    proof {
        lemma_small_mod_u8(b);
        lemma_unvlq_prefix(s, q as nat);
    }
    if signbit {
        let m = n.add_one();
        Ok(BigInt::from_sign_magnitude(true, m))
    } else {
        Ok(BigInt::from_sign_magnitude(false, n))
    }
}

} // verus!
