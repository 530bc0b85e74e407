//! Little-endian primitives over an in-memory byte cursor.
use vstd::prelude::*;

verus! {

/// The two bytes of `v`, least significant first.
pub open spec fn u16_le_bytes(v: u16) -> Seq<u8> {
    seq![v as u8, (v >> 8) as u8]
}

/// The four bytes of `v`, least significant first.
pub open spec fn u32_le_bytes(v: u32) -> Seq<u8> {
    seq![v as u8, (v >> 8) as u8, (v >> 16) as u8, (v >> 24) as u8]
}

/// The four bytes of `v` in two's complement, least significant first.
pub open spec fn i32_le_bytes(v: i32) -> Seq<u8> {
    u32_le_bytes(v as u32)
}

/// The single byte of `v` in two's complement.
pub open spec fn i8_byte(v: i8) -> Seq<u8> {
    seq![v as u8]
}

/// The `u32` whose little-endian bytes start `s`.
pub open spec fn u32_from_le(s: Seq<u8>) -> u32 {
    (s[0] as u32) | ((s[1] as u32) << 8u32) | ((s[2] as u32) << 16u32) | ((s[3] as u32) << 24u32)
}

/// Reading four bytes back gives the value that was written.
pub proof fn lemma_u32_from_le_bytes(v: u32)
    ensures
        u32_from_le(u32_le_bytes(v)) == v,
{
    let b = u32_le_bytes(v);
    assert(b[0] == v as u8 && b[1] == (v >> 8) as u8 && b[2] == (v >> 16) as u8 && b[3] == (v
        >> 24) as u8);
    let (b0, b1, b2, b3) = (b[0], b[1], b[2], b[3]);
    assert(((b0 as u32) | ((b1 as u32) << 8u32) | ((b2 as u32) << 16u32) | ((b3 as u32)
        << 24u32)) == v) by (bit_vector)
        requires
            b0 == v as u8,
            b1 == (v >> 8) as u8,
            b2 == (v >> 16) as u8,
            b3 == (v >> 24) as u8,
    ;
}

/// Four bytes that spell `v` at the start of `x` read back as `v`.
pub proof fn lemma_u32_from_le_prefix(x: Seq<u8>, v: u32)
    requires
        x.len() >= 4,
        x.subrange(0, 4) == u32_le_bytes(v),
    ensures
        u32_from_le(x) == v,
{
    lemma_u32_from_le_bytes(v);
    assert(x[0] == x.subrange(0, 4)[0]);
    assert(x[1] == x.subrange(0, 4)[1]);
    assert(x[2] == x.subrange(0, 4)[2]);
    assert(x[3] == x.subrange(0, 4)[3]);
}

/// Appending the next `n` bytes of `d` after position `q` extends the range read from `start`.
pub proof fn lemma_extend(d: Seq<u8>, start: int, q: int, n: int, piece: Seq<u8>)
    requires
        0 <= start <= q,
        0 <= n,
        q + n <= d.len(),
        piece == d.subrange(q, d.len() as int).take(n),
    ensures
        d.subrange(start, q) + piece == d.subrange(start, q + n),
{
    assert(d.subrange(start, q) + piece =~= d.subrange(start, q + n));
}

/// Distinct values have distinct encodings.
pub proof fn lemma_u32_le_bytes_injective(a: u32, b: u32)
    requires
        u32_le_bytes(a) == u32_le_bytes(b),
    ensures
        a == b,
{
    assert(u32_le_bytes(a)[0] == u32_le_bytes(b)[0]);
    assert(u32_le_bytes(a)[1] == u32_le_bytes(b)[1]);
    assert(u32_le_bytes(a)[2] == u32_le_bytes(b)[2]);
    assert(u32_le_bytes(a)[3] == u32_le_bytes(b)[3]);
    assert(a == b) by (bit_vector)
        requires
            a as u8 == b as u8,
            (a >> 8) as u8 == (b >> 8) as u8,
            (a >> 16) as u8 == (b >> 16) as u8,
            (a >> 24) as u8 == (b >> 24) as u8,
    ;
}

/// Distinct values have distinct encodings.
pub proof fn lemma_u16_le_bytes_injective(a: u16, b: u16)
    requires
        u16_le_bytes(a) == u16_le_bytes(b),
    ensures
        a == b,
{
    assert(u16_le_bytes(a)[0] == u16_le_bytes(b)[0]);
    assert(u16_le_bytes(a)[1] == u16_le_bytes(b)[1]);
    assert(a == b) by (bit_vector)
        requires
            a as u8 == b as u8,
            (a >> 8) as u8 == (b >> 8) as u8,
    ;
}

/// Distinct values have distinct encodings.
pub proof fn lemma_i32_le_bytes_injective(a: i32, b: i32)
    requires
        i32_le_bytes(a) == i32_le_bytes(b),
    ensures
        a == b,
{
    lemma_u32_le_bytes_injective(a as u32, b as u32);
    assert(a == b) by (bit_vector)
        requires
            a as u32 == b as u32,
    ;
}

/// Distinct values have distinct encodings.
pub proof fn lemma_i8_byte_injective(a: i8, b: i8)
    requires
        i8_byte(a) == i8_byte(b),
    ensures
        a == b,
{
    assert(i8_byte(a)[0] == a as u8);
    assert(i8_byte(b)[0] == b as u8);
    assert(a == b) by (bit_vector)
        requires
            a as u8 == b as u8,
    ;
}

/// Appends `v` as two little-endian bytes.
pub fn write_u16(out: &mut Vec<u8>, v: u16)
    ensures
        final(out)@ == old(out)@ + u16_le_bytes(v),
{
    out.push(v as u8);
    out.push((v >> 8) as u8);
    assert(final(out)@ =~= old(out)@ + u16_le_bytes(v));
}

/// Appends `v` as four little-endian bytes.
pub fn write_u32(out: &mut Vec<u8>, v: u32)
    ensures
        final(out)@ == old(out)@ + u32_le_bytes(v),
{
    out.push(v as u8);
    out.push((v >> 8) as u8);
    out.push((v >> 16) as u8);
    out.push((v >> 24) as u8);
    assert(final(out)@ =~= old(out)@ + u32_le_bytes(v));
}

/// Appends `v` as four little-endian bytes in two's complement.
pub fn write_i32(out: &mut Vec<u8>, v: i32)
    ensures
        final(out)@ == old(out)@ + i32_le_bytes(v),
{
    write_u32(out, v as u32);
}

/// Appends `v` as one byte in two's complement.
pub fn write_i8(out: &mut Vec<u8>, v: i8)
    ensures
        final(out)@ == old(out)@ + i8_byte(v),
{
    out.push(v as u8);
    assert(final(out)@ =~= old(out)@ + i8_byte(v));
}

/// Appends every byte of `bytes`.
pub fn write_all(out: &mut Vec<u8>, bytes: &[u8])
    ensures
        final(out)@ == old(out)@ + bytes@,
{
    let mut i: usize = 0;
    while i < bytes.len()
        invariant
            i <= bytes@.len(),
            out@ == old(out)@ + bytes@.take(i as int),
        decreases bytes@.len() - i,
    {
        out.push(bytes[i]);
        i = i + 1;
        assert(out@ =~= old(out)@ + bytes@.take(i as int));
    }
    assert(bytes@.take(i as int) =~= bytes@);
}

/// Reading past the end of the input.
#[derive(Debug, Clone, Copy, PartialEq, Eq, Structural)]
pub enum ReadError {
    /// The input ended before the structure did.
    UnexpectedEof,
}

/// A forward-only cursor over a byte buffer.
pub struct ByteReader {
    pub data: Vec<u8>,
    pub pos: usize,
}

impl ByteReader {
    /// The bytes that have not been read yet.
    pub open spec fn rest(&self) -> Seq<u8> {
        self.data@.subrange(self.pos as int, self.data@.len() as int)
    }

    pub open spec fn wf(&self) -> bool {
        self.pos <= self.data@.len()
    }

    /// A cursor at the start of `data`.
    pub fn new(data: Vec<u8>) -> (r: Self)
        ensures
            r.wf(),
            r.rest() == data@,
            r.data@ == data@,
    {
        let r = ByteReader { data, pos: 0 };
        assert(r.rest() =~= r.data@);
        r
    }

    /// How many bytes are left to read.
    pub fn remaining(&self) -> (r: usize)
        requires
            self.wf(),
        ensures
            r == self.rest().len(),
    {
        self.data.len() - self.pos
    }

    /// Reads one byte; `None` at the end of the input, which then stays as it was.
    pub fn read_u8(&mut self) -> (r: Option<u8>)
        requires
            old(self).wf(),
        ensures
            final(self).wf(),
            final(self).data@ == old(self).data@,
            old(self).rest().len() >= 1 ==> final(self).pos == old(self).pos + 1,
            old(self).rest().len() < 1 ==> final(self).pos == old(self).pos,
            old(self).rest().len() >= 1 ==> r == Some(old(self).rest()[0]) && final(self).rest()
                == old(self).rest().skip(1),
            old(self).rest().len() < 1 ==> r is None && final(self).rest() == old(self).rest(),
    {
        if self.pos < self.data.len() {
            let b = self.data[self.pos];
            self.pos = self.pos + 1;
            assert(self.rest() =~= old(self).rest().skip(1));
            Some(b)
        } else {
            None
        }
    }

    /// Reads the next `n` bytes; `None` when fewer are left, and the input then stays as it
    /// was.
    pub fn read_bytes(&mut self, n: usize) -> (r: Option<Vec<u8>>)
        requires
            old(self).wf(),
        ensures
            final(self).wf(),
            final(self).data@ == old(self).data@,
            n <= old(self).rest().len() ==> final(self).pos == old(self).pos + n,
            n > old(self).rest().len() ==> final(self).pos == old(self).pos,
            n <= old(self).rest().len() ==> (r matches Some(v) && v@ == old(self).rest().take(n as int)
                && final(self).rest() == old(self).rest().skip(n as int)),
            n > old(self).rest().len() ==> r is None && final(self).rest() == old(self).rest(),
    {
        if n > self.data.len() - self.pos {
            return None;
        }
        let end: usize = self.pos + n;
        let mut v: Vec<u8> = Vec::new();
        let mut i: usize = 0;
        while i < n
            invariant
                self.wf(),
                self == old(self),
                n <= self.rest().len(),
                end == self.pos + n,
                end <= self.data.len(),
                i <= n,
                v@ == self.rest().take(i as int),
            decreases n - i,
        {
            v.push(self.data[self.pos + i]);
            i = i + 1;
            assert(v@ =~= self.rest().take(i as int));
        }
        self.pos = self.pos + n;
        assert(self.rest() =~= old(self).rest().skip(n as int));
        Some(v)
    }

    /// Reads a little-endian `u16`.
    pub fn read_u16(&mut self) -> (r: Option<u16>)
        requires
            old(self).wf(),
        ensures
            final(self).wf(),
            final(self).data@ == old(self).data@,
            old(self).rest().len() >= 2 ==> final(self).pos == old(self).pos + 2,
            old(self).rest().len() < 2 ==> final(self).pos == old(self).pos,
            old(self).rest().len() >= 2 ==> (r matches Some(v) && u16_le_bytes(v)
                == old(self).rest().take(2) && final(self).rest() == old(self).rest().skip(2)),
            old(self).rest().len() < 2 ==> r is None && final(self).rest() == old(self).rest(),
    {
        if self.data.len() - self.pos < 2 {
            return None;
        }
        let b0 = self.data[self.pos];
        let b1 = self.data[self.pos + 1];
        let v: u16 = (b0 as u16) | ((b1 as u16) << 8u16);
        assert(v as u8 == b0 && (v >> 8) as u8 == b1) by (bit_vector)
            requires
                v == (b0 as u16) | ((b1 as u16) << 8u16),
        ;
        self.pos = self.pos + 2;
        assert(u16_le_bytes(v) =~= old(self).rest().take(2));
        assert(self.rest() =~= old(self).rest().skip(2));
        Some(v)
    }

    /// Reads a little-endian `u32`.
    pub fn read_u32(&mut self) -> (r: Option<u32>)
        requires
            old(self).wf(),
        ensures
            final(self).wf(),
            final(self).data@ == old(self).data@,
            old(self).rest().len() >= 4 ==> final(self).pos == old(self).pos + 4,
            old(self).rest().len() < 4 ==> final(self).pos == old(self).pos,
            old(self).rest().len() >= 4 ==> (r matches Some(v) && u32_le_bytes(v)
                == old(self).rest().take(4) && v == u32_from_le(old(self).rest())
                && final(self).rest() == old(self).rest().skip(4)),
            old(self).rest().len() < 4 ==> r is None && final(self).rest() == old(self).rest(),
    {
        if self.data.len() - self.pos < 4 {
            return None;
        }
        let b0 = self.data[self.pos];
        let b1 = self.data[self.pos + 1];
        let b2 = self.data[self.pos + 2];
        let b3 = self.data[self.pos + 3];
        let v: u32 = (b0 as u32) | ((b1 as u32) << 8u32) | ((b2 as u32) << 16u32) | ((b3 as u32)
            << 24u32);
        assert(v as u8 == b0 && (v >> 8) as u8 == b1 && (v >> 16) as u8 == b2 && (v >> 24) as u8
            == b3) by (bit_vector)
            requires
                v == (b0 as u32) | ((b1 as u32) << 8u32) | ((b2 as u32) << 16u32) | ((b3 as u32)
                    << 24u32),
        ;
        self.pos = self.pos + 4;
        assert(u32_le_bytes(v) =~= old(self).rest().take(4));
        assert(self.rest() =~= old(self).rest().skip(4));
        Some(v)
    }

    /// Reads a little-endian `i32` in two's complement.
    pub fn read_i32(&mut self) -> (r: Option<i32>)
        requires
            old(self).wf(),
        ensures
            final(self).wf(),
            final(self).data@ == old(self).data@,
            old(self).rest().len() >= 4 ==> final(self).pos == old(self).pos + 4,
            old(self).rest().len() < 4 ==> final(self).pos == old(self).pos,
            old(self).rest().len() >= 4 ==> (r matches Some(v) && i32_le_bytes(v)
                == old(self).rest().take(4) && final(self).rest() == old(self).rest().skip(4)),
            old(self).rest().len() < 4 ==> r is None && final(self).rest() == old(self).rest(),
    {
        match self.read_u32() {
            Some(u) => {
                let v = u as i32;
                assert(v as u32 == u) by (bit_vector)
                    requires
                        v == u as i32,
                ;
                Some(v)
            },
            None => None,
        }
    }

    /// Reads one byte as an `i8` in two's complement.
    pub fn read_i8(&mut self) -> (r: Option<i8>)
        requires
            old(self).wf(),
        ensures
            final(self).wf(),
            final(self).data@ == old(self).data@,
            old(self).rest().len() >= 1 ==> final(self).pos == old(self).pos + 1,
            old(self).rest().len() < 1 ==> final(self).pos == old(self).pos,
            old(self).rest().len() >= 1 ==> (r matches Some(v) && i8_byte(v) == old(self).rest().take(1)
                && final(self).rest() == old(self).rest().skip(1)),
            old(self).rest().len() < 1 ==> r is None && final(self).rest() == old(self).rest(),
    {
        match self.read_u8() {
            Some(b) => {
                let v = b as i8;
                assert(v as u8 == b) by (bit_vector)
                    requires
                        v == b as i8,
                ;
                assert(i8_byte(v) =~= old(self).rest().take(1));
                Some(v)
            },
            None => None,
        }
    }
}

} // verus!
