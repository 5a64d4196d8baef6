//! Codecs of the built-in types: how each value is written to and read from
//! a byte stream.
use vstd::prelude::*;
use vstd::arithmetic::power::pow;
use crate::bignum::{BigNat, BigInt};
use crate::text::joined_with;
use crate::runtime::{FormatReader, FormatWriter, le_value, le_bytes, lemma_le_roundtrip};
use crate::vlq::{encode_vlq, decoede_vlq_unsigned, decoede_vlq_signed, MAX_VLQ_INPUT};
use crate::vlq_spec::{vlq_nat, vlq_int, unvlq_nat, unvlq_int, lemma_unvlq_vlq_nat, lemma_unvlq_vlq_int, lemma_unvlq_len};
use vstd::utf8::{valid_utf8, decode_utf8, encode_utf8};

verus! {

/// A type that can be written to and read from the binary format.
pub trait VerilizationCodec: Sized + DeepView {
    /// The bytes a value is written as.
    spec fn encoding(v: Self::V) -> Seq<u8>;

    /// The value read from the front of `s` and the bytes it takes.
    spec fn decoding(s: Seq<u8>) -> Option<(Self::V, nat)>;

    /// Whether reading from `s` is defined (elsewhere the read panics).
    spec fn readable(s: Seq<u8>) -> bool;

    /// Reading back what was written gives the value, whatever follows it.
    proof fn lemma_roundtrip(v: Self::V, rest: Seq<u8>)
        ensures
            Self::decoding(Self::encoding(v) + rest) == Some((v, Self::encoding(v).len())),
    ;

    /// A read takes no more bytes than there are.
    proof fn lemma_decoding_len(s: Seq<u8>)
        ensures
            Self::decoding(s) matches Some((v, l)) ==> l <= s.len(),
    ;

    /// Whether `v` can be held in memory: every list and string in it has a
    /// length that fits in a `usize`.
    spec fn storable(v: Self::V) -> bool;

    /// What is written for a storable value can be read, whatever follows
    /// it, while the whole input stays within what the decoder accepts.
    proof fn lemma_readable(v: Self::V, rest: Seq<u8>)
        requires
            Self::storable(v),
            (Self::encoding(v) + rest).len() <= MAX_VLQ_INPUT,
        ensures
            Self::readable(Self::encoding(v) + rest),
    ;

    fn read_verilization<R: FormatReader>(reader: &mut R) -> (r: Result<Self, R::Error>)
        requires
            Self::readable(old(reader).remaining()),
        ensures
            r matches Ok(v) ==> (Self::decoding(old(reader).remaining()) matches Some((dv, l))
                && v.deep_view() == dv && final(reader).remaining() == old(
                reader,
            ).remaining().skip(l as int)),
            R::infallible() ==> (r is Ok <==> Self::decoding(old(reader).remaining()) is Some),
            r matches Err(e) ==> final(reader).failures() == old(reader).failures().push(e),
            r is Ok ==> final(reader).failures() == old(reader).failures(),
    ;

    fn write_verilization<W: FormatWriter>(&self, writer: &mut W) -> (r: Result<(), W::Error>)
        ensures
            r is Ok ==> final(writer).written() == old(writer).written() + Self::encoding(
                self.deep_view(),
            ),
            r is Ok ==> Self::storable(self.deep_view()),
            W::infallible() ==> r is Ok,
    ;
}

proof fn lemma_pow256_values()
    ensures
        pow(256, 1) == 0x100,
        pow(256, 2) == 0x1_0000,
        pow(256, 4) == 0x1_0000_0000,
        pow(256, 8) == 0x1_0000_0000_0000_0000,
{
    reveal(pow);
    assert(pow(256, 0) == 1);
    assert(pow(256, 1) == 0x100);
    assert(pow(256, 2) == 0x1_0000);
    assert(pow(256, 3) == 0x100_0000);
    assert(pow(256, 4) == 0x1_0000_0000);
    assert(pow(256, 5) == 0x100_0000_0000);
    assert(pow(256, 6) == 0x1_0000_0000_0000);
    assert(pow(256, 7) == 0x100_0000_0000_0000);
    assert(pow(256, 8) == 0x1_0000_0000_0000_0000);
}

/// `n` little-endian bytes of a value below `256^n` read back as that value.
proof fn lemma_fixed_roundtrip(v: nat, n: nat, rest: Seq<u8>)
    requires
        v < pow(256, n),
    ensures
        (le_bytes(v, n) + rest).len() >= n,
        (le_bytes(v, n) + rest).take(n as int) == le_bytes(v, n),
        le_value(le_bytes(v, n)) == v,
{
    lemma_le_roundtrip(v, n);
    vstd::arithmetic::div_mod::lemma_small_mod(v, pow(256, n) as nat);
    assert((le_bytes(v, n) + rest).take(n as int) =~= le_bytes(v, n));
}

impl VerilizationCodec for u8 {
    open spec fn encoding(v: u8) -> Seq<u8> {
        seq![v]
    }

    open spec fn decoding(s: Seq<u8>) -> Option<(u8, nat)> {
        if s.len() >= 1 {
            Some((s[0], 1))
        } else {
            None
        }
    }

    open spec fn readable(s: Seq<u8>) -> bool {
        true
    }

    proof fn lemma_roundtrip(v: u8, rest: Seq<u8>) {
    }

    proof fn lemma_decoding_len(s: Seq<u8>) {
    }

    open spec fn storable(v: Self::V) -> bool {
        true
    }

    proof fn lemma_readable(v: Self::V, rest: Seq<u8>) {
    }

    fn read_verilization<R: FormatReader>(reader: &mut R) -> (r: Result<Self, R::Error>) {
        reader.read_u8()
    }

    fn write_verilization<W: FormatWriter>(&self, writer: &mut W) -> (r: Result<(), W::Error>) {
        let r = writer.write_u8(*self);
        assert(seq![*self] == old(writer).written().push(*self).skip(old(writer).written().len() as int));
        proof {
            if r is Ok {
                assert(writer.written() =~= old(writer).written() + seq![*self]);
            }
        }
        r
    }
}

impl VerilizationCodec for i8 {
    open spec fn encoding(v: i8) -> Seq<u8> {
        seq![v as u8]
    }

    open spec fn decoding(s: Seq<u8>) -> Option<(i8, nat)> {
        if s.len() >= 1 {
            Some((s[0] as i8, 1))
        } else {
            None
        }
    }

    open spec fn readable(s: Seq<u8>) -> bool {
        true
    }

    proof fn lemma_roundtrip(v: i8, rest: Seq<u8>) {
        assert(((v as u8) as i8) == v) by (bit_vector);
    }

    proof fn lemma_decoding_len(s: Seq<u8>) {
    }

    open spec fn storable(v: Self::V) -> bool {
        true
    }

    proof fn lemma_readable(v: Self::V, rest: Seq<u8>) {
    }

    fn read_verilization<R: FormatReader>(reader: &mut R) -> (r: Result<Self, R::Error>) {
        Ok(reader.read_u8()? as i8)
    }

    fn write_verilization<W: FormatWriter>(&self, writer: &mut W) -> (r: Result<(), W::Error>) {
        let r = writer.write_u8(*self as u8);
        proof {
            if r is Ok {
                assert(writer.written() =~= old(writer).written() + seq![*self as u8]);
            }
        }
        r
    }
}

impl VerilizationCodec for u16 {
    open spec fn encoding(v: u16) -> Seq<u8> {
        le_bytes(v as nat, 2)
    }

    open spec fn decoding(s: Seq<u8>) -> Option<(u16, nat)> {
        if s.len() >= 2 {
            Some((le_value(s.take(2)) as u16, 2))
        } else {
            None
        }
    }

    open spec fn readable(s: Seq<u8>) -> bool {
        true
    }

    proof fn lemma_roundtrip(v: u16, rest: Seq<u8>) {
        lemma_pow256_values();
        lemma_fixed_roundtrip(v as nat, 2, rest);
    }

    proof fn lemma_decoding_len(s: Seq<u8>) {
    }

    open spec fn storable(v: Self::V) -> bool {
        true
    }

    proof fn lemma_readable(v: Self::V, rest: Seq<u8>) {
    }

    fn read_verilization<R: FormatReader>(reader: &mut R) -> (r: Result<Self, R::Error>) {
        reader.read_u16()
    }

    fn write_verilization<W: FormatWriter>(&self, writer: &mut W) -> (r: Result<(), W::Error>) {
        writer.write_u16(*self)
    }
}

impl VerilizationCodec for i16 {
    open spec fn encoding(v: i16) -> Seq<u8> {
        le_bytes((v as u16) as nat, 2)
    }

    open spec fn decoding(s: Seq<u8>) -> Option<(i16, nat)> {
        if s.len() >= 2 {
            Some(((le_value(s.take(2)) as u16) as i16, 2))
        } else {
            None
        }
    }

    open spec fn readable(s: Seq<u8>) -> bool {
        true
    }

    proof fn lemma_roundtrip(v: i16, rest: Seq<u8>) {
        lemma_pow256_values();
        lemma_fixed_roundtrip((v as u16) as nat, 2, rest);
        assert(((v as u16) as i16) == v) by (bit_vector);
    }

    proof fn lemma_decoding_len(s: Seq<u8>) {
    }

    open spec fn storable(v: Self::V) -> bool {
        true
    }

    proof fn lemma_readable(v: Self::V, rest: Seq<u8>) {
    }

    fn read_verilization<R: FormatReader>(reader: &mut R) -> (r: Result<Self, R::Error>) {
        Ok(reader.read_u16()? as i16)
    }

    fn write_verilization<W: FormatWriter>(&self, writer: &mut W) -> (r: Result<(), W::Error>) {
        writer.write_u16(*self as u16)
    }
}

impl VerilizationCodec for u32 {
    open spec fn encoding(v: u32) -> Seq<u8> {
        le_bytes(v as nat, 4)
    }

    open spec fn decoding(s: Seq<u8>) -> Option<(u32, nat)> {
        if s.len() >= 4 {
            Some((le_value(s.take(4)) as u32, 4))
        } else {
            None
        }
    }

    open spec fn readable(s: Seq<u8>) -> bool {
        true
    }

    proof fn lemma_roundtrip(v: u32, rest: Seq<u8>) {
        lemma_pow256_values();
        lemma_fixed_roundtrip(v as nat, 4, rest);
    }

    proof fn lemma_decoding_len(s: Seq<u8>) {
    }

    open spec fn storable(v: Self::V) -> bool {
        true
    }

    proof fn lemma_readable(v: Self::V, rest: Seq<u8>) {
    }

    fn read_verilization<R: FormatReader>(reader: &mut R) -> (r: Result<Self, R::Error>) {
        reader.read_u32()
    }

    fn write_verilization<W: FormatWriter>(&self, writer: &mut W) -> (r: Result<(), W::Error>) {
        writer.write_u32(*self)
    }
}

impl VerilizationCodec for i32 {
    open spec fn encoding(v: i32) -> Seq<u8> {
        le_bytes((v as u32) as nat, 4)
    }

    open spec fn decoding(s: Seq<u8>) -> Option<(i32, nat)> {
        if s.len() >= 4 {
            Some(((le_value(s.take(4)) as u32) as i32, 4))
        } else {
            None
        }
    }

    open spec fn readable(s: Seq<u8>) -> bool {
        true
    }

    proof fn lemma_roundtrip(v: i32, rest: Seq<u8>) {
        lemma_pow256_values();
        lemma_fixed_roundtrip((v as u32) as nat, 4, rest);
        assert(((v as u32) as i32) == v) by (bit_vector);
    }

    proof fn lemma_decoding_len(s: Seq<u8>) {
    }

    open spec fn storable(v: Self::V) -> bool {
        true
    }

    proof fn lemma_readable(v: Self::V, rest: Seq<u8>) {
    }

    fn read_verilization<R: FormatReader>(reader: &mut R) -> (r: Result<Self, R::Error>) {
        Ok(reader.read_u32()? as i32)
    }

    fn write_verilization<W: FormatWriter>(&self, writer: &mut W) -> (r: Result<(), W::Error>) {
        writer.write_u32(*self as u32)
    }
}

impl VerilizationCodec for u64 {
    open spec fn encoding(v: u64) -> Seq<u8> {
        le_bytes(v as nat, 8)
    }

    open spec fn decoding(s: Seq<u8>) -> Option<(u64, nat)> {
        if s.len() >= 8 {
            Some((le_value(s.take(8)) as u64, 8))
        } else {
            None
        }
    }

    open spec fn readable(s: Seq<u8>) -> bool {
        true
    }

    proof fn lemma_roundtrip(v: u64, rest: Seq<u8>) {
        lemma_pow256_values();
        lemma_fixed_roundtrip(v as nat, 8, rest);
    }

    proof fn lemma_decoding_len(s: Seq<u8>) {
    }

    open spec fn storable(v: Self::V) -> bool {
        true
    }

    proof fn lemma_readable(v: Self::V, rest: Seq<u8>) {
    }

    fn read_verilization<R: FormatReader>(reader: &mut R) -> (r: Result<Self, R::Error>) {
        reader.read_u64()
    }

    fn write_verilization<W: FormatWriter>(&self, writer: &mut W) -> (r: Result<(), W::Error>) {
        writer.write_u64(*self)
    }
}

impl VerilizationCodec for i64 {
    open spec fn encoding(v: i64) -> Seq<u8> {
        le_bytes((v as u64) as nat, 8)
    }

    open spec fn decoding(s: Seq<u8>) -> Option<(i64, nat)> {
        if s.len() >= 8 {
            Some(((le_value(s.take(8)) as u64) as i64, 8))
        } else {
            None
        }
    }

    open spec fn readable(s: Seq<u8>) -> bool {
        true
    }

    proof fn lemma_roundtrip(v: i64, rest: Seq<u8>) {
        lemma_pow256_values();
        lemma_fixed_roundtrip((v as u64) as nat, 8, rest);
        assert(((v as u64) as i64) == v) by (bit_vector);
    }

    proof fn lemma_decoding_len(s: Seq<u8>) {
    }

    open spec fn storable(v: Self::V) -> bool {
        true
    }

    proof fn lemma_readable(v: Self::V, rest: Seq<u8>) {
    }

    fn read_verilization<R: FormatReader>(reader: &mut R) -> (r: Result<Self, R::Error>) {
        Ok(reader.read_u64()? as i64)
    }

    fn write_verilization<W: FormatWriter>(&self, writer: &mut W) -> (r: Result<(), W::Error>) {
        writer.write_u64(*self as u64)
    }
}

impl VerilizationCodec for BigNat {
    open spec fn encoding(v: nat) -> Seq<u8> {
        vlq_nat(v)
    }

    open spec fn decoding(s: Seq<u8>) -> Option<(nat, nat)> {
        unvlq_nat(s)
    }

    open spec fn readable(s: Seq<u8>) -> bool {
        s.len() <= MAX_VLQ_INPUT
    }

    proof fn lemma_roundtrip(v: nat, rest: Seq<u8>) {
        lemma_unvlq_vlq_nat(v, rest);
    }

    proof fn lemma_decoding_len(s: Seq<u8>) {
        lemma_unvlq_len(s);
    }

    open spec fn storable(v: Self::V) -> bool {
        true
    }

    proof fn lemma_readable(v: Self::V, rest: Seq<u8>) {
    }

    fn read_verilization<R: FormatReader>(reader: &mut R) -> (r: Result<Self, R::Error>) {
        decoede_vlq_unsigned(reader)
    }

    fn write_verilization<W: FormatWriter>(&self, writer: &mut W) -> (r: Result<(), W::Error>) {
        encode_vlq(writer, None, self)
    }
}

impl VerilizationCodec for BigInt {
    open spec fn encoding(v: int) -> Seq<u8> {
        vlq_int(v)
    }

    open spec fn decoding(s: Seq<u8>) -> Option<(int, nat)> {
        unvlq_int(s)
    }

    open spec fn readable(s: Seq<u8>) -> bool {
        s.len() <= MAX_VLQ_INPUT
    }

    proof fn lemma_roundtrip(v: int, rest: Seq<u8>) {
        lemma_unvlq_vlq_int(v, rest);
    }

    proof fn lemma_decoding_len(s: Seq<u8>) {
        lemma_unvlq_len(s);
    }

    open spec fn storable(v: Self::V) -> bool {
        true
    }

    proof fn lemma_readable(v: Self::V, rest: Seq<u8>) {
    }

    fn read_verilization<R: FormatReader>(reader: &mut R) -> (r: Result<Self, R::Error>) {
        decoede_vlq_signed(reader)
    }

    fn write_verilization<W: FormatWriter>(&self, writer: &mut W) -> (r: Result<(), W::Error>) {
        let sign = self.sign();
        encode_vlq(writer, Some(sign), self.magnitude())
    }
}

impl<T: VerilizationCodec> VerilizationCodec for Option<T> {
    open spec fn encoding(v: Option<T::V>) -> Seq<u8> {
        match v {
            Some(x) => seq![1u8] + T::encoding(x),
            None => seq![0u8],
        }
    }

    open spec fn decoding(s: Seq<u8>) -> Option<(Option<T::V>, nat)> {
        if s.len() == 0 {
            None
        } else if s[0] != 0 {
            match T::decoding(s.skip(1)) {
                Some((x, l)) => Some((Some(x), l + 1)),
                None => None,
            }
        } else {
            Some((None, 1))
        }
    }

    open spec fn readable(s: Seq<u8>) -> bool {
        s.len() == 0 || s[0] == 0 || T::readable(s.skip(1))
    }

    proof fn lemma_roundtrip(v: Option<T::V>, rest: Seq<u8>) {
        match v {
            Some(x) => {
                assert((seq![1u8] + T::encoding(x) + rest).skip(1) =~= T::encoding(x) + rest);
                T::lemma_roundtrip(x, rest);
            },
            None => {
            },
        }
    }

    proof fn lemma_decoding_len(s: Seq<u8>) {
        if s.len() > 0 {
            T::lemma_decoding_len(s.skip(1));
        }
    }

    open spec fn storable(v: Option<T::V>) -> bool {
        match v {
            Some(x) => T::storable(x),
            None => true,
        }
    }

    proof fn lemma_readable(v: Option<T::V>, rest: Seq<u8>) {
        if let Some(x) = v {
            assert((seq![1u8] + T::encoding(x) + rest).skip(1) =~= T::encoding(x) + rest);
            T::lemma_readable(x, rest);
        }
    }

    fn read_verilization<R: FormatReader>(reader: &mut R) -> (r: Result<Self, R::Error>) {
        let ghost s = old(reader).remaining();
        let b = reader.read_u8()?;
        if b != 0 {
            let v = T::read_verilization(reader)?;
            proof {
                T::lemma_decoding_len(s.skip(1));
                if let Some((x, l)) = T::decoding(s.skip(1)) {
                    assert(s.skip(1).skip(l as int) =~= s.skip((l + 1) as int));
                }
            }
            Ok(Some(v))
        } else {
            Ok(None)
        }
    }

    fn write_verilization<W: FormatWriter>(&self, writer: &mut W) -> (r: Result<(), W::Error>) {
        if let Some(value) = self {
            writer.write_u8(1)?;
            let r = value.write_verilization(writer);
            proof {
                if r is Ok {
                    assert(writer.written() =~= old(writer).written() + (seq![1u8] + T::encoding(value.deep_view())));
                }
            }
            r?;
        } else {
            writer.write_u8(0)?;
            assert(writer.written() =~= old(writer).written() + seq![0u8]);
        }
        Ok(())
    }
}

/// The bytes of a sequence of values, one after the other.
pub open spec fn encode_elems<T: VerilizationCodec>(vs: Seq<T::V>) -> Seq<u8>
    decreases vs.len(),
{
    if vs.len() == 0 {
        seq![]
    } else {
        T::encoding(vs[0]) + encode_elems::<T>(vs.drop_first())
    }
}

/// Reads `n` values one after the other from the front of `s`.
pub open spec fn decode_elems<T: VerilizationCodec>(s: Seq<u8>, n: nat) -> Option<(Seq<T::V>, nat)>
    decreases n,
{
    if n == 0 {
        Some((seq![], 0))
    } else {
        match T::decoding(s) {
            Some((v, l)) => match decode_elems::<T>(s.skip(l as int), (n - 1) as nat) {
                Some((vs, l2)) => Some((seq![v] + vs, l + l2)),
                None => None,
            },
            None => None,
        }
    }
}

/// Whether reading `n` values from the front of `s` stays defined.
pub open spec fn elems_readable<T: VerilizationCodec>(s: Seq<u8>, n: nat) -> bool
    decreases n,
{
    n == 0 || (T::readable(s) && match T::decoding(s) {
        Some((v, l)) => elems_readable::<T>(s.skip(l as int), (n - 1) as nat),
        None => true,
    })
}

proof fn lemma_encode_elems_push<T: VerilizationCodec>(vs: Seq<T::V>, v: T::V)
    ensures
        encode_elems::<T>(vs.push(v)) == encode_elems::<T>(vs) + T::encoding(v),
    decreases vs.len(),
{
    if vs.len() == 0 {
        assert(vs.push(v).drop_first() =~= Seq::<T::V>::empty());
        assert(encode_elems::<T>(Seq::<T::V>::empty()) == Seq::<u8>::empty());
        assert(vs.push(v)[0] == v);
        assert(encode_elems::<T>(vs) == Seq::<u8>::empty());
        assert(encode_elems::<T>(vs.push(v)) =~= T::encoding(v));
    } else {
        assert(vs.push(v).drop_first() =~= vs.drop_first().push(v));
        lemma_encode_elems_push::<T>(vs.drop_first(), v);
        assert(encode_elems::<T>(vs.push(v)) =~= encode_elems::<T>(vs) + T::encoding(v));
    }
}

/// Reading `k + 1` values: `k` values, then one more.
proof fn lemma_decode_elems_split<T: VerilizationCodec>(s: Seq<u8>, k: nat, m: nat)
    requires
        decode_elems::<T>(s, k) is Some,
    ensures
        ({
            let (vs, c) = decode_elems::<T>(s, k).unwrap();
            &&& c <= s.len()
            &&& decode_elems::<T>(s, k + m) == match decode_elems::<T>(s.skip(c as int), m) {
                Some((ws, c2)) => Some((vs + ws, c + c2)),
                None => None,
            }
            &&& (elems_readable::<T>(s, k + m) ==> elems_readable::<T>(s.skip(c as int), m))
        }),
    decreases k,
{
    if k == 0 {
        assert(s.skip(0) =~= s);
        let (vs, c) = decode_elems::<T>(s, 0).unwrap();
        match decode_elems::<T>(s, m) {
            Some((ws, c2)) => {
                assert(vs + ws =~= ws);
            },
            None => {},
        }
    } else {
        let (v, l) = T::decoding(s).unwrap();
        T::lemma_decoding_len(s);
        let t = s.skip(l as int);
        lemma_decode_elems_split::<T>(t, (k - 1) as nat, m);
        let (vs1, c1) = decode_elems::<T>(t, (k - 1) as nat).unwrap();
        assert(t.skip(c1 as int) =~= s.skip((l + c1) as int));
        assert((k - 1 + m) as nat == (k + m - 1) as nat);
        match decode_elems::<T>(s.skip((l + c1) as int), m) {
            Some((ws, c2)) => {
                assert(seq![v] + (vs1 + ws) =~= (seq![v] + vs1) + ws);
            },
            None => {},
        }
    }
}

proof fn lemma_decode_elems_roundtrip<T: VerilizationCodec>(vs: Seq<T::V>, rest: Seq<u8>)
    ensures
        decode_elems::<T>(encode_elems::<T>(vs) + rest, vs.len()) == Some((vs, encode_elems::<T>(vs).len())),
    decreases vs.len(),
{
    if vs.len() > 0 {
        let tail = encode_elems::<T>(vs.drop_first()) + rest;
        T::lemma_roundtrip(vs[0], tail);
        assert(encode_elems::<T>(vs) + rest =~= T::encoding(vs[0]) + tail);
        assert((T::encoding(vs[0]) + tail).skip(T::encoding(vs[0]).len() as int) =~= tail);
        lemma_decode_elems_roundtrip::<T>(vs.drop_first(), rest);
        assert(seq![vs[0]] + vs.drop_first() =~= vs);
    }
}

/// The values `vs`, written one after the other, can be read back one after
/// the other.
proof fn lemma_elems_readable<T: VerilizationCodec>(vs: Seq<T::V>, rest: Seq<u8>)
    requires
        forall|i: int| 0 <= i < vs.len() ==> T::storable(#[trigger] vs[i]),
        (encode_elems::<T>(vs) + rest).len() <= MAX_VLQ_INPUT,
    ensures
        elems_readable::<T>(encode_elems::<T>(vs) + rest, vs.len()),
    decreases vs.len(),
{
    if vs.len() > 0 {
        let tail = encode_elems::<T>(vs.drop_first()) + rest;
        assert(encode_elems::<T>(vs) + rest =~= T::encoding(vs[0]) + tail);
        T::lemma_readable(vs[0], tail);
        T::lemma_roundtrip(vs[0], tail);
        assert((T::encoding(vs[0]) + tail).skip(T::encoding(vs[0]).len() as int) =~= tail);
        assert forall|i: int| 0 <= i < vs.drop_first().len() implies T::storable(#[trigger] vs.drop_first()[i]) by {
            assert(vs.drop_first()[i] == vs[i + 1]);
        }
        lemma_elems_readable::<T>(vs.drop_first(), rest);
    }
}

impl<T: VerilizationCodec> VerilizationCodec for Vec<T> {
    open spec fn encoding(vs: Seq<T::V>) -> Seq<u8> {
        vlq_nat(vs.len()) + encode_elems::<T>(vs)
    }

    open spec fn decoding(s: Seq<u8>) -> Option<(Seq<T::V>, nat)> {
        match unvlq_nat(s) {
            Some((n, l)) => match decode_elems::<T>(s.skip(l as int), n) {
                Some((vs, l2)) => Some((vs, l + l2)),
                None => None,
            },
            None => None,
        }
    }

    open spec fn readable(s: Seq<u8>) -> bool {
        &&& s.len() <= MAX_VLQ_INPUT
        &&& match unvlq_nat(s) {
            Some((n, l)) => n <= usize::MAX && elems_readable::<T>(s.skip(l as int), n),
            None => true,
        }
    }

    proof fn lemma_roundtrip(vs: Seq<T::V>, rest: Seq<u8>) {
        let e = encode_elems::<T>(vs) + rest;
        lemma_unvlq_vlq_nat(vs.len(), e);
        assert(vlq_nat(vs.len()) + encode_elems::<T>(vs) + rest =~= vlq_nat(vs.len()) + e);
        assert((vlq_nat(vs.len()) + e).skip(vlq_nat(vs.len()).len() as int) =~= e);
        lemma_decode_elems_roundtrip::<T>(vs, rest);
    }

    proof fn lemma_decoding_len(s: Seq<u8>) {
        lemma_unvlq_len(s);
        if let Some((n, l)) = unvlq_nat(s) {
            if decode_elems::<T>(s.skip(l as int), 0) is Some {
                lemma_decode_elems_split::<T>(s.skip(l as int), 0, n);
                if let Some((vs, c)) = decode_elems::<T>(s.skip(l as int), n) {
                    lemma_decode_elems_split::<T>(s.skip(l as int), n, 0);
                }
            }
        }
    }

    open spec fn storable(vs: Seq<T::V>) -> bool {
        &&& vs.len() <= usize::MAX
        &&& forall|i: int| 0 <= i < vs.len() ==> T::storable(#[trigger] vs[i])
    }

    proof fn lemma_readable(vs: Seq<T::V>, rest: Seq<u8>) {
        let e = encode_elems::<T>(vs) + rest;
        lemma_unvlq_vlq_nat(vs.len(), e);
        assert(vlq_nat(vs.len()) + encode_elems::<T>(vs) + rest =~= vlq_nat(vs.len()) + e);
        assert((vlq_nat(vs.len()) + e).skip(vlq_nat(vs.len()).len() as int) =~= e);
        lemma_elems_readable::<T>(vs, rest);
    }

    fn read_verilization<R: FormatReader>(reader: &mut R) -> (r: Result<Self, R::Error>) {
        let ghost s = old(reader).remaining();
        let n = BigNat::read_verilization(reader)?;
        let len = n.to_u64().unwrap() as usize;
        let ghost l = unvlq_nat(s).unwrap().1;
        let ghost t = s.skip(l as int);
        proof {
            lemma_unvlq_len(s);
        }
        let mut vec: Vec<T> = Vec::with_capacity(len);
        assert(t.skip(0) =~= t);
        assert(vec.deep_view() =~= Seq::<T::V>::empty());
        let mut i: usize = 0;
        let ghost mut c: nat = 0;
        while i < len
            invariant
                i <= len,
                len == unvlq_nat(s).unwrap().0,
                unvlq_nat(s) == Some((len as nat, l)),
                t == s.skip(l as int),
                l <= s.len(),
                s == old(reader).remaining(),
                reader.failures() == old(reader).failures(),
                decode_elems::<T>(t, i as nat) == Some((vec.deep_view(), c)),
                c <= t.len(),
                reader.remaining() == t.skip(c as int),
                elems_readable::<T>(t, len as nat),
                elems_readable::<T>(t.skip(c as int), (len - i) as nat),
                R::infallible() ==> (decode_elems::<T>(t, len as nat) is Some <==> decode_elems::<T>(t.skip(c as int), (len - i) as nat) is Some),
            decreases len - i,
        {
            let ghost before = reader.remaining();
            proof {
                lemma_decode_elems_split::<T>(t, i as nat, (len - i) as nat);
                assert(i + (len - i) == len);
            }
            let x = T::read_verilization(reader)?;
            proof {
                let (v, lx) = T::decoding(before).unwrap();
                T::lemma_decoding_len(before);
                lemma_decode_elems_split::<T>(t, i as nat, 1);
                assert(t.skip(c as int).skip(lx as int) =~= t.skip((c + lx) as int));
                let ghost old_dv = vec.deep_view();
                assert(decode_elems::<T>(before.skip(lx as int), 0) == Some((Seq::<T::V>::empty(), 0nat)));
                assert(old_dv + seq![v] =~= old_dv.push(v));
                lemma_decode_elems_split::<T>(t, (i + 1) as nat, (len - i - 1) as nat);
                assert((i + 1 + (len - i - 1)) as nat == len as nat);
                assert((len - i - 1) as nat == (len - (i + 1)) as nat);
                c = c + lx;
            }
            vec.push(x);
            i = i + 1;
        }
        proof {
            assert(t.skip(c as int).skip(0) =~= t.skip(c as int));
            assert(s.skip(l as int).skip(c as int) =~= s.skip((l + c) as int));
        }
        Ok(vec)
    }

    fn write_verilization<W: FormatWriter>(&self, writer: &mut W) -> (r: Result<(), W::Error>) {
        let ghost dv = self.deep_view();
        BigNat::from_u64(self.len() as u64).write_verilization(writer)?;
        let ghost base = writer.written();
        let mut i: usize = 0;
        assert(dv.take(0) =~= Seq::<T::V>::empty());
        assert(base =~= base + encode_elems::<T>(dv.take(0)));
        while i < self.len()
            invariant
                i <= self@.len(),
                dv == self.deep_view(),
                base == old(writer).written() + vlq_nat(self@.len() as nat),
                writer.written() == base + encode_elems::<T>(dv.take(i as int)),
                dv.len() == self@.len(),
                forall|j: int| 0 <= j < i ==> T::storable(#[trigger] dv[j]),
            decreases self@.len() - i,
        {
            self[i].write_verilization(writer)?;
            assert(dv[i as int] == self@[i as int].deep_view());
            proof {
                assert(dv.take(i + 1) =~= dv.take(i as int).push(dv[i as int]));
                lemma_encode_elems_push::<T>(dv.take(i as int), dv[i as int]);
            }
            i = i + 1;
        }
        assert(dv.take(i as int) =~= dv);
        Ok(())
    }
}

/// `String::from_utf8`: the string whose UTF-8 encoding is `v`, when `v` is
/// valid UTF-8.
#[verifier::external_body]
fn string_from_utf8(v: Vec<u8>) -> (r: Option<String>)
    ensures
        r is Some <==> valid_utf8(v@),
        r matches Some(s) ==> s@ == decode_utf8(v@),
{
    String::from_utf8(v).ok()
}

impl VerilizationCodec for String {
    open spec fn encoding(cs: Seq<char>) -> Seq<u8> {
        vlq_nat(encode_utf8(cs).len()) + encode_utf8(cs)
    }

    open spec fn decoding(s: Seq<u8>) -> Option<(Seq<char>, nat)> {
        match unvlq_nat(s) {
            Some((n, l)) => if l + n <= s.len() && valid_utf8(s.subrange(l as int, (l + n) as int)) {
                Some((decode_utf8(s.subrange(l as int, (l + n) as int)), l + n))
            } else {
                None
            },
            None => None,
        }
    }

    open spec fn readable(s: Seq<u8>) -> bool {
        &&& s.len() <= MAX_VLQ_INPUT
        &&& match unvlq_nat(s) {
            Some((n, l)) => n <= usize::MAX && (l + n <= s.len() ==> valid_utf8(
                s.subrange(l as int, (l + n) as int),
            )),
            None => true,
        }
    }

    proof fn lemma_roundtrip(cs: Seq<char>, rest: Seq<u8>) {
        let b = encode_utf8(cs);
        lemma_unvlq_vlq_nat(b.len(), b + rest);
        let s = vlq_nat(b.len()) + b + rest;
        assert(s =~= vlq_nat(b.len()) + (b + rest));
        let l = vlq_nat(b.len()).len();
        assert(s.subrange(l as int, (l + b.len()) as int) =~= b);
        vstd::utf8::encode_utf8_valid_utf8(cs);
        vstd::utf8::encode_utf8_decode_utf8(cs);
    }

    proof fn lemma_decoding_len(s: Seq<u8>) {
    }

    open spec fn storable(cs: Seq<char>) -> bool {
        encode_utf8(cs).len() <= usize::MAX
    }

    proof fn lemma_readable(cs: Seq<char>, rest: Seq<u8>) {
        let b = encode_utf8(cs);
        lemma_unvlq_vlq_nat(b.len(), b + rest);
        let s = vlq_nat(b.len()) + b + rest;
        assert(s =~= vlq_nat(b.len()) + (b + rest));
        let l = vlq_nat(b.len()).len();
        assert(s.subrange(l as int, (l + b.len()) as int) =~= b);
        vstd::utf8::encode_utf8_valid_utf8(cs);
    }

    fn read_verilization<R: FormatReader>(reader: &mut R) -> (r: Result<Self, R::Error>) {
        let ghost s = old(reader).remaining();
        let n = BigNat::read_verilization(reader)?;
        let len = n.to_u64().unwrap() as usize;
        proof {
            lemma_unvlq_len(s);
        }
        let ghost l = unvlq_nat(s).unwrap().1;
        let vec = reader.read_bytes(len)?;
        proof {
            assert(vec@ =~= s.subrange(l as int, (l + len) as int));
            assert(s.skip(l as int).skip(len as int) =~= s.skip((l + len) as int));
        }
        let text = string_from_utf8(vec).unwrap();
        Ok(text)
    }

    fn write_verilization<W: FormatWriter>(&self, writer: &mut W) -> (r: Result<(), W::Error>) {
        let bytes = self.as_str().as_bytes();
        BigNat::from_u64(bytes.len() as u64).write_verilization(writer)?;
        let r = writer.write_bytes(bytes);
        proof {
            if r is Ok {
                assert(writer.written() =~= old(writer).written() + (vlq_nat(encode_utf8(self@).len())
                    + encode_utf8(self@)));
            }
        }
        r
    }
}

/// The number that the two's-complement bit pattern of `v` reads as, unsigned,
/// in `bits` bits: `v` itself when it is not negative, else `v + 2^bits`.
pub open spec fn twos_complement(v: int, bits: nat) -> nat {
    if v >= 0 {
        v as nat
    } else {
        (v + vstd::arithmetic::power2::pow2(bits)) as nat
    }
}

/// Every fixed-width integer is written as the little-endian bytes of its
/// two's-complement bit pattern: as many bytes as its width, whose
/// little-endian value is the number itself when it is not negative, and
/// the number plus `2^width` when it is.
pub proof fn lemma_fixed_width_encodings(a: u8, b: i8, c: u16, d: i16, e: u32, f: i32, g: u64, h: i64)
    ensures
        <u8 as VerilizationCodec>::encoding(a).len() == 1,
        le_value(<u8 as VerilizationCodec>::encoding(a)) == a,
        <i8 as VerilizationCodec>::encoding(b).len() == 1,
        le_value(<i8 as VerilizationCodec>::encoding(b)) == twos_complement(b as int, 8),
        <u16 as VerilizationCodec>::encoding(c).len() == 2,
        le_value(<u16 as VerilizationCodec>::encoding(c)) == c,
        <i16 as VerilizationCodec>::encoding(d).len() == 2,
        le_value(<i16 as VerilizationCodec>::encoding(d)) == twos_complement(d as int, 16),
        <u32 as VerilizationCodec>::encoding(e).len() == 4,
        le_value(<u32 as VerilizationCodec>::encoding(e)) == e,
        <i32 as VerilizationCodec>::encoding(f).len() == 4,
        le_value(<i32 as VerilizationCodec>::encoding(f)) == twos_complement(f as int, 32),
        <u64 as VerilizationCodec>::encoding(g).len() == 8,
        le_value(<u64 as VerilizationCodec>::encoding(g)) == g,
        <i64 as VerilizationCodec>::encoding(h).len() == 8,
        le_value(<i64 as VerilizationCodec>::encoding(h)) == twos_complement(h as int, 64),
{
    lemma_pow256_values();
    vstd::arithmetic::power2::lemma2_to64();
    assert(le_value(Seq::<u8>::empty()) == 0);
    let s1 = seq![a];
    assert(s1.drop_first() =~= Seq::<u8>::empty());
    assert(le_value(s1) == s1[0] as nat + 256 * le_value(s1.drop_first()));
    let s2 = seq![#[verifier::truncate] (b as u8)];
    assert(s2.drop_first() =~= Seq::<u8>::empty());
    assert(le_value(s2) == s2[0] as nat + 256 * le_value(s2.drop_first()));
    assert(vstd::arithmetic::power2::pow2(8) == 0x100);
    assert(b >= 0 ==> (b as u8) as int == b as int) by (bit_vector);
    assert(b < 0 ==> (b as u8) as int == b as int + 0x100) by (bit_vector);
    lemma_le_roundtrip(c as nat, 2);
    lemma_le_roundtrip((d as u16) as nat, 2);
    assert(d >= 0 ==> (d as u16) as int == d as int) by (bit_vector);
    assert(d < 0 ==> (d as u16) as int == d as int + 0x1_0000) by (bit_vector);
    lemma_le_roundtrip(e as nat, 4);
    lemma_le_roundtrip((f as u32) as nat, 4);
    assert(f >= 0 ==> (f as u32) as int == f as int) by (bit_vector);
    assert(f < 0 ==> (f as u32) as int == f as int + 0x1_0000_0000) by (bit_vector);
    lemma_le_roundtrip(g as nat, 8);
    lemma_le_roundtrip((h as u64) as nat, 8);
    assert(h >= 0 ==> (h as u64) as int == h as int) by (bit_vector);
    assert(h < 0 ==> (h as u64) as int == h as int + 0x1_0000_0000_0000_0000) by (bit_vector);
    vstd::arithmetic::div_mod::lemma_small_mod(c as nat, 0x1_0000);
    vstd::arithmetic::div_mod::lemma_small_mod((d as u16) as nat, 0x1_0000);
    vstd::arithmetic::div_mod::lemma_small_mod(e as nat, 0x1_0000_0000);
    vstd::arithmetic::div_mod::lemma_small_mod((f as u32) as nat, 0x1_0000_0000);
    vstd::arithmetic::div_mod::lemma_small_mod(g as nat, 0x1_0000_0000_0000_0000);
    vstd::arithmetic::div_mod::lemma_small_mod((h as u64) as nat, 0x1_0000_0000_0000_0000);
}

/// Reading a fixed-width signed integer takes the bytes as a two's-complement
/// bit pattern: the little-endian value of the bytes when it is below half
/// the range, else that value minus the range.
pub proof fn lemma_signed_decodings(s: Seq<u8>)
    ensures
        s.len() >= 1 ==> (<i8 as VerilizationCodec>::decoding(s) matches Some((x, l)) && l == 1
            && x as int == (if s[0] < 0x80 { s[0] as int } else { s[0] as int - 0x100 })),
        s.len() >= 2 ==> (<i16 as VerilizationCodec>::decoding(s) matches Some((x, l)) && l == 2 && ({
            let u = le_value(s.take(2));
            x as int == (if u < 0x8000 { u as int } else { u as int - 0x1_0000 })
        })),
        s.len() >= 4 ==> (<i32 as VerilizationCodec>::decoding(s) matches Some((x, l)) && l == 4 && ({
            let u = le_value(s.take(4));
            x as int == (if u < 0x8000_0000 { u as int } else { u as int - 0x1_0000_0000 })
        })),
        s.len() >= 8 ==> (<i64 as VerilizationCodec>::decoding(s) matches Some((x, l)) && l == 8 && ({
            let u = le_value(s.take(8));
            x as int == (if u < 0x8000_0000_0000_0000 { u as int } else { u as int - 0x1_0000_0000_0000_0000 })
        })),
{
    lemma_pow256_values();
    if s.len() >= 1 {
        let b = s[0];
        assert(b < 0x80 ==> (b as i8) as int == b as int) by (bit_vector);
        assert(b >= 0x80 ==> (b as i8) as int == b as int - 0x100) by (bit_vector);
    }
    if s.len() >= 2 {
        crate::runtime::lemma_le_value_bound(s.take(2));
        let w = le_value(s.take(2)) as u16;
        assert(w < 0x8000 ==> (w as i16) as int == w as int) by (bit_vector);
        assert(w >= 0x8000 ==> (w as i16) as int == w as int - 0x1_0000) by (bit_vector);
    }
    if s.len() >= 4 {
        crate::runtime::lemma_le_value_bound(s.take(4));
        let w = le_value(s.take(4)) as u32;
        assert(w < 0x8000_0000 ==> (w as i32) as int == w as int) by (bit_vector);
        assert(w >= 0x8000_0000 ==> (w as i32) as int == w as int - 0x1_0000_0000) by (bit_vector);
    }
    if s.len() >= 8 {
        crate::runtime::lemma_le_value_bound(s.take(8));
        let w = le_value(s.take(8)) as u64;
        assert(w < 0x8000_0000_0000_0000 ==> (w as i64) as int == w as int) by (bit_vector);
        assert(w >= 0x8000_0000_0000_0000 ==> (w as i64) as int == w as int - 0x1_0000_0000_0000_0000) by (bit_vector);
    }
}

/// The texts of the elements `vs`, one after the other.
proof fn lemma_encode_elems_joined<T: VerilizationCodec>(vs: Seq<T::V>)
    ensures
        encode_elems::<T>(vs) == joined_with(vs.map_values(|v: T::V| T::encoding(v)), Seq::empty()),
    decreases vs.len(),
{
    if vs.len() > 0 {
        let init = vs.drop_last();
        lemma_encode_elems_joined::<T>(init);
        assert(init.push(vs.last()) =~= vs);
        lemma_encode_elems_push::<T>(init, vs.last());
        let es = vs.map_values(|v: T::V| T::encoding(v));
        assert(es.drop_last() =~= init.map_values(|v: T::V| T::encoding(v)));
        if vs.len() == 1 {
            assert(init.len() == 0);
            assert(encode_elems::<T>(init) == Seq::<u8>::empty());
            assert(encode_elems::<T>(vs) =~= es[0]);
        } else {
            assert(encode_elems::<T>(vs) =~= joined_with(es, Seq::empty()));
        }
    }
}

/// How the containers are written, in terms of the codecs of their parts:
/// an option as the byte 1 then its value, or the byte 0 for none; a list as
/// its length, written as a `nat`, then each element in order; a string as
/// the length of its UTF-8 bytes, written as a `nat`, then those bytes.
pub proof fn lemma_container_encodings<T: VerilizationCodec>(x: T::V, vs: Seq<T::V>, cs: Seq<char>)
    ensures
        <Option<T> as VerilizationCodec>::encoding(Some(x)) == <u8 as VerilizationCodec>::encoding(1) + T::encoding(x),
        <Option<T> as VerilizationCodec>::encoding(None) == <u8 as VerilizationCodec>::encoding(0),
        <Vec<T> as VerilizationCodec>::encoding(vs) == <BigNat as VerilizationCodec>::encoding(vs.len())
            + joined_with(vs.map_values(|v: T::V| T::encoding(v)), Seq::empty()),
        <String as VerilizationCodec>::encoding(cs) == <BigNat as VerilizationCodec>::encoding(encode_utf8(cs).len())
            + encode_utf8(cs),
{
    lemma_encode_elems_joined::<T>(vs);
}

} // verus!


