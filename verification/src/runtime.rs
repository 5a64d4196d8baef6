//! The runtime side of the format: byte readers and writers, and the codecs
//! of the built-in types.
use vstd::prelude::*;

verus! {

/// The value of little-endian bytes.
pub open spec fn le_value(s: Seq<u8>) -> nat
    decreases s.len(),
{
    if s.len() == 0 {
        0
    } else {
        s[0] as nat + 256 * le_value(s.drop_first())
    }
}

/// The lowest `n` bytes of `v`, little-endian.
pub open spec fn le_bytes(v: nat, n: nat) -> Seq<u8>
    decreases n,
{
    if n == 0 {
        seq![]
    } else {
        seq![(v % 256) as u8] + le_bytes(v / 256, (n - 1) as nat)
    }
}

pub proof fn lemma_le_bytes_len(v: nat, n: nat)
    ensures
        le_bytes(v, n).len() == n,
    decreases n,
{
    if n > 0 {
        lemma_le_bytes_len(v / 256, (n - 1) as nat);
    }
}

/// Reading back `n` little-endian bytes of `v` gives `v` modulo `256^n`;
/// for a value that fits, `v` itself.
pub proof fn lemma_le_roundtrip(v: nat, n: nat)
    ensures
        le_value(le_bytes(v, n)) == v % vstd::arithmetic::power::pow(256, n) as nat,
        le_bytes(v, n).len() == n,
    decreases n,
{
    lemma_le_bytes_len(v, n);
    vstd::arithmetic::power::lemma_pow_positive(256, n);
    if n == 0 {
        reveal(vstd::arithmetic::power::pow);
    } else {
        let s = le_bytes(v, n);
        assert(s.drop_first() =~= le_bytes(v / 256, (n - 1) as nat));
        lemma_le_roundtrip(v / 256, (n - 1) as nat);
        reveal(vstd::arithmetic::power::pow);
        vstd::arithmetic::power::lemma_pow_positive(256, (n - 1) as nat);
        vstd::arithmetic::div_mod::lemma_mod_breakdown(
            v as int,
            256,
            vstd::arithmetic::power::pow(256, (n - 1) as nat),
        );
    }
}

/// A destination for encoded bytes.
pub trait FormatWriter {
    type Error;

    /// Everything written so far.
    spec fn written(&self) -> Seq<u8>;

    /// Whether every write succeeds.
    spec fn infallible() -> bool;

    fn write_u8(&mut self, value: u8) -> (r: Result<(), Self::Error>)
        ensures
            r is Ok ==> final(self).written() == old(self).written().push(value),
            Self::infallible() ==> r is Ok,
    ;

    fn write_u16(&mut self, value: u16) -> (r: Result<(), Self::Error>)
        ensures
            r is Ok ==> final(self).written() == old(self).written() + le_bytes(value as nat, 2),
            Self::infallible() ==> r is Ok,
    ;

    fn write_u32(&mut self, value: u32) -> (r: Result<(), Self::Error>)
        ensures
            r is Ok ==> final(self).written() == old(self).written() + le_bytes(value as nat, 4),
            Self::infallible() ==> r is Ok,
    ;

    fn write_u64(&mut self, value: u64) -> (r: Result<(), Self::Error>)
        ensures
            r is Ok ==> final(self).written() == old(self).written() + le_bytes(value as nat, 8),
            Self::infallible() ==> r is Ok,
    ;

    fn write_bytes(&mut self, data: &[u8]) -> (r: Result<(), Self::Error>)
        ensures
            r is Ok ==> final(self).written() == old(self).written() + data@,
            Self::infallible() ==> r is Ok,
    ;
}

/// A source of encoded bytes.
pub trait FormatReader {
    type Error;

    /// The bytes that are still to be read.
    spec fn remaining(&self) -> Seq<u8>;

    /// Whether a read fails only when too few bytes remain.
    spec fn infallible() -> bool;

    /// The errors of the reads that failed so far, in order.
    spec fn failures(&self) -> Seq<Self::Error>;

    fn read_u8(&mut self) -> (r: Result<u8, Self::Error>)
        ensures
            r matches Ok(b) ==> old(self).remaining().len() >= 1 && b == old(self).remaining()[0]
                && final(self).remaining() == old(self).remaining().skip(1),
            Self::infallible() ==> (r is Ok <==> old(self).remaining().len() >= 1),
            r matches Err(e) ==> final(self).failures() == old(self).failures().push(e),
            r is Ok ==> final(self).failures() == old(self).failures(),
    ;

    fn read_u16(&mut self) -> (r: Result<u16, Self::Error>)
        ensures
            r matches Ok(v) ==> old(self).remaining().len() >= 2 && v == le_value(
                old(self).remaining().take(2),
            ) && final(self).remaining() == old(self).remaining().skip(2),
            Self::infallible() ==> (r is Ok <==> old(self).remaining().len() >= 2),
            r matches Err(e) ==> final(self).failures() == old(self).failures().push(e),
            r is Ok ==> final(self).failures() == old(self).failures(),
    ;

    fn read_u32(&mut self) -> (r: Result<u32, Self::Error>)
        ensures
            r matches Ok(v) ==> old(self).remaining().len() >= 4 && v == le_value(
                old(self).remaining().take(4),
            ) && final(self).remaining() == old(self).remaining().skip(4),
            Self::infallible() ==> (r is Ok <==> old(self).remaining().len() >= 4),
            r matches Err(e) ==> final(self).failures() == old(self).failures().push(e),
            r is Ok ==> final(self).failures() == old(self).failures(),
    ;

    fn read_u64(&mut self) -> (r: Result<u64, Self::Error>)
        ensures
            r matches Ok(v) ==> old(self).remaining().len() >= 8 && v == le_value(
                old(self).remaining().take(8),
            ) && final(self).remaining() == old(self).remaining().skip(8),
            Self::infallible() ==> (r is Ok <==> old(self).remaining().len() >= 8),
            r matches Err(e) ==> final(self).failures() == old(self).failures().push(e),
            r is Ok ==> final(self).failures() == old(self).failures(),
    ;

    fn read_bytes(&mut self, count: usize) -> (r: Result<Vec<u8>, Self::Error>)
        ensures
            r matches Ok(v) ==> old(self).remaining().len() >= count && v@ == old(
                self,
            ).remaining().take(count as int) && final(self).remaining() == old(
                self,
            ).remaining().skip(count as int),
            Self::infallible() ==> (r is Ok <==> old(self).remaining().len() >= count),
            r matches Err(e) ==> final(self).failures() == old(self).failures().push(e),
            r is Ok ==> final(self).failures() == old(self).failures(),
    ;
}

/// A writer that collects the bytes in memory.
pub struct MemoryWriter {
    pub bytes: Vec<u8>,
}

/// A reader over bytes held in memory.
pub struct MemoryReader {
    data: Vec<u8>,
    pos: usize,
    failed: Ghost<Seq<EndOfData>>,
}

/// The error of a memory reader: too few bytes remained.
#[derive(Debug, Clone, Copy, PartialEq, Eq)]
pub struct EndOfData;

impl MemoryWriter {
    pub fn new() -> (w: MemoryWriter)
        ensures
            w.bytes@ == Seq::<u8>::empty(),
    {
        MemoryWriter { bytes: Vec::new() }
    }

    fn push_le(&mut self, v: u64, n: usize)
        requires
            n <= 8,
        ensures
            final(self).bytes@ == old(self).bytes@ + le_bytes(v as nat, n as nat),
    {
        let mut i: usize = 0;
        let mut x: u64 = v;
        while i < n
            invariant
                i <= n,
                self.bytes@ + le_bytes(x as nat, (n - i) as nat) == old(self).bytes@ + le_bytes(
                    v as nat,
                    n as nat,
                ),
            decreases n - i,
        {
            let ghost before = self.bytes@;
            assert(le_bytes(x as nat, (n - i) as nat) == seq![(x % 256) as u8] + le_bytes(
                (x / 256) as nat,
                (n - i - 1) as nat,
            ));
            self.bytes.push((x % 256) as u8);
            assert(self.bytes@ + le_bytes((x / 256) as nat, (n - i - 1) as nat) =~= before
                + le_bytes(x as nat, (n - i) as nat));
            x = x / 256;
            i = i + 1;
        }
        assert(le_bytes(x as nat, 0) =~= Seq::<u8>::empty());
        assert(self.bytes@ =~= self.bytes@ + le_bytes(x as nat, 0));
    }
}

impl FormatWriter for MemoryWriter {
    type Error = EndOfData;

    open spec fn written(&self) -> Seq<u8> {
        self.bytes@
    }

    open spec fn infallible() -> bool {
        true
    }

    fn write_u8(&mut self, value: u8) -> (r: Result<(), Self::Error>) {
        self.bytes.push(value);
        Ok(())
    }

    fn write_u16(&mut self, value: u16) -> (r: Result<(), Self::Error>) {
        self.push_le(value as u64, 2);
        Ok(())
    }

    fn write_u32(&mut self, value: u32) -> (r: Result<(), Self::Error>) {
        self.push_le(value as u64, 4);
        Ok(())
    }

    fn write_u64(&mut self, value: u64) -> (r: Result<(), Self::Error>) {
        self.push_le(value, 8);
        Ok(())
    }

    fn write_bytes(&mut self, data: &[u8]) -> (r: Result<(), Self::Error>) {
        let mut i: usize = 0;
        while i < data.len()
            invariant
                i <= data@.len(),
                self.bytes@ == old(self).bytes@ + data@.take(i as int),
            decreases data@.len() - i,
        {
            self.bytes.push(data[i]);
            assert(data@.take(i + 1) =~= data@.take(i as int).push(data@[i as int]));
            i = i + 1;
        }
        assert(data@.take(i as int) =~= data@);
        Ok(())
    }
}

impl MemoryReader {
    /// A reader over `data`, from its first byte.
    pub fn new(data: Vec<u8>) -> (r: MemoryReader)
        ensures
            r.remaining() == data@,
            r.contents() == data@,
            r.failures() == Seq::<EndOfData>::empty(),
    {
        let r = MemoryReader { data, pos: 0, failed: Ghost(Seq::empty()) };
        assert(r.data@.skip(0) =~= r.data@);
        r
    }

    /// How many bytes have been read.
    pub fn position(&self) -> (r: usize)
        ensures
            r == self.contents().len() - self.remaining().len(),
    {
        proof { use_type_invariant(self); }
        self.pos
    }

    /// All the bytes the reader was made over.
    pub closed spec fn contents(&self) -> Seq<u8> {
        self.data@
    }

    #[verifier::type_invariant]
    spec fn wf(&self) -> bool {
        self.pos <= self.data@.len()
    }

    fn read_le(&mut self, n: usize) -> (r: Result<u64, EndOfData>)
        requires
            n <= 8,
        ensures
            r matches Ok(v) ==> old(self).remaining().len() >= n && v == le_value(
                old(self).remaining().take(n as int),
            ) && final(self).remaining() == old(self).remaining().skip(n as int),
            r is Ok <==> old(self).remaining().len() >= n,
            r matches Err(e) ==> final(self).failures() == old(self).failures().push(e),
            r is Ok ==> final(self).failures() == old(self).failures(),
    {
        proof { use_type_invariant(&*self); }
        if self.data.len() - self.pos < n {
            self.failed = Ghost(self.failed@.push(EndOfData));
            return Err(EndOfData);
        }
        let ghost s = old(self).remaining();
        let mut i: usize = n;
        let mut v: u64 = 0;
        proof {
            vstd::arithmetic::power::lemma_pow_positive(256, 0);
            reveal(vstd::arithmetic::power::pow);
        }
        while i > 0
            invariant
                i <= n <= 8,
                self.pos + n <= self.data@.len(),
                self.pos + n <= self.data.len(),
                s == self.data@.skip(self.pos as int),
                v == le_value(s.subrange(i as int, n as int)),
                (v as nat) < vstd::arithmetic::power::pow(256, (n - i) as nat),
            decreases i,
        {
            let b = self.data[self.pos + i - 1];
            let ghost sub = s.subrange(i - 1, n as int);
            assert(sub.drop_first() =~= s.subrange(i as int, n as int));
            assert(sub[0] == b);
            proof {
                reveal(vstd::arithmetic::power::pow);
                assert(vstd::arithmetic::power::pow(256, (n - i + 1) as nat) == 256
                    * vstd::arithmetic::power::pow(256, (n - i) as nat));
                lemma_pow256_bound((n - i) as nat);
                assert(v * 256 + b < vstd::arithmetic::power::pow(256, (n - i + 1) as nat)) by (nonlinear_arith)
                    requires
                        v < vstd::arithmetic::power::pow(256, (n - i) as nat),
                        b < 256,
                        vstd::arithmetic::power::pow(256, (n - i + 1) as nat) == 256
                            * vstd::arithmetic::power::pow(256, (n - i) as nat),
                ;
                lemma_pow256_bound((n - i + 1) as nat);
            }
            v = b as u64 + 256 * v;
            i = i - 1;
        }
        self.pos = self.pos + n;
        assert(s.subrange(0, n as int) =~= s.take(n as int));
        assert(self.data@.skip(self.pos as int) =~= s.skip(n as int));
        Ok(v)
    }
}

proof fn lemma_pow256_bound(k: nat)
    requires
        k <= 8,
    ensures
        vstd::arithmetic::power::pow(256, k) <= 0x1_0000_0000_0000_0000,
        vstd::arithmetic::power::pow(256, 2) == 0x1_0000,
        vstd::arithmetic::power::pow(256, 4) == 0x1_0000_0000,
        vstd::arithmetic::power::pow(256, 8) == 0x1_0000_0000_0000_0000,
{
    reveal(vstd::arithmetic::power::pow);
    assert(vstd::arithmetic::power::pow(256, 0) == 1);
    assert(vstd::arithmetic::power::pow(256, 1) == 0x100);
    assert(vstd::arithmetic::power::pow(256, 2) == 0x1_0000);
    assert(vstd::arithmetic::power::pow(256, 3) == 0x100_0000);
    assert(vstd::arithmetic::power::pow(256, 4) == 0x1_0000_0000);
    assert(vstd::arithmetic::power::pow(256, 5) == 0x100_0000_0000);
    assert(vstd::arithmetic::power::pow(256, 6) == 0x1_0000_0000_0000);
    assert(vstd::arithmetic::power::pow(256, 7) == 0x100_0000_0000_0000);
    assert(vstd::arithmetic::power::pow(256, 8) == 0x1_0000_0000_0000_0000);
}

impl FormatReader for MemoryReader {
    type Error = EndOfData;

    closed spec fn remaining(&self) -> Seq<u8> {
        self.data@.skip(self.pos as int)
    }

    open spec fn infallible() -> bool {
        true
    }

    closed spec fn failures(&self) -> Seq<EndOfData> {
        self.failed@
    }

    fn read_u8(&mut self) -> (r: Result<u8, Self::Error>) {
        proof { use_type_invariant(&*self); }
        if self.pos < self.data.len() {
            let b = self.data[self.pos];
            self.pos = self.pos + 1;
            assert(self.data@.skip(self.pos as int) =~= old(self).remaining().skip(1));
            Ok(b)
        } else {
            self.failed = Ghost(self.failed@.push(EndOfData));
            Err(EndOfData)
        }
    }

    fn read_u16(&mut self) -> (r: Result<u16, Self::Error>) {
        let v = self.read_le(2)?;
        proof { lemma_le_value_bound(old(self).remaining().take(2)); lemma_pow256_bound(2); }
        Ok(v as u16)
    }

    fn read_u32(&mut self) -> (r: Result<u32, Self::Error>) {
        let v = self.read_le(4)?;
        proof { lemma_le_value_bound(old(self).remaining().take(4)); lemma_pow256_bound(4); }
        Ok(v as u32)
    }

    fn read_u64(&mut self) -> (r: Result<u64, Self::Error>) {
        self.read_le(8)
    }

    fn read_bytes(&mut self, count: usize) -> (r: Result<Vec<u8>, Self::Error>) {
        proof { use_type_invariant(&*self); }
        if self.data.len() - self.pos < count {
            self.failed = Ghost(self.failed@.push(EndOfData));
            return Err(EndOfData);
        }
        let mut out: Vec<u8> = Vec::new();
        let mut i: usize = 0;
        while i < count
            invariant
                i <= count,
                self.pos + count <= self.data@.len(),
                self.pos + count <= self.data.len(),
                self.pos == old(self).pos,
                self.data == old(self).data,
                self.failed == old(self).failed,
                out@ == old(self).remaining().take(i as int),
            decreases count - i,
        {
            out.push(self.data[self.pos + i]);
            assert(old(self).remaining().take(i + 1) =~= old(self).remaining().take(i as int).push(
                self.data@[self.pos + i],
            ));
            i = i + 1;
        }
        self.pos = self.pos + count;
        assert(self.data@.skip(self.pos as int) =~= old(self).remaining().skip(count as int));
        Ok(out)
    }
}

/// `n` little-endian bytes hold a value below `256^n`.
pub proof fn lemma_le_value_bound(s: Seq<u8>)
    ensures
        le_value(s) < vstd::arithmetic::power::pow(256, s.len()),
    decreases s.len(),
{
    reveal(vstd::arithmetic::power::pow);
    if s.len() > 0 {
        lemma_le_value_bound(s.drop_first());
        assert(vstd::arithmetic::power::pow(256, s.len()) == 256 * vstd::arithmetic::power::pow(
            256,
            (s.len() - 1) as nat,
        ));
    }
}

} // verus!
