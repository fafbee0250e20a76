use vstd::prelude::*;
use vstd::slice::slice_subrange;
use crate::error::{Result, VoltError};

verus! {

/// The abstract state of a cursor: the bytes it reads, the read position and
/// the context named in truncation errors.
pub struct CursorModel {
    pub data: Seq<u8>,
    pub pos: int,
    pub ctx: &'static str,
}

/// Little-endian value of two bytes.
pub open spec fn le16(b0: u8, b1: u8) -> u16 {
    (b0 as int + 256 * b1 as int) as u16
}

/// Little-endian value of three bytes.
pub open spec fn le24(b0: u8, b1: u8, b2: u8) -> u32 {
    (b0 as int + 256 * b1 as int + 65536 * b2 as int) as u32
}

/// Little-endian value of four bytes.
pub open spec fn le32(b0: u8, b1: u8, b2: u8, b3: u8) -> u32 {
    (b0 as int + 256 * b1 as int + 65536 * b2 as int + 16777216 * b3 as int) as u32
}

/// Little-endian value of eight bytes.
pub open spec fn le64(b: Seq<u8>) -> u64 {
    (le32(b[0], b[1], b[2], b[3]) as int + 4294967296 * le32(b[4], b[5], b[6], b[7]) as int) as u64
}

/// The two little-endian bytes of `x`.
pub open spec fn le_bytes16(x: u16) -> Seq<u8> {
    seq![(x & 0xffu16) as u8, (x >> 8u16) as u8]
}

/// The four little-endian bytes of `x`.
pub open spec fn le_bytes32(x: u32) -> Seq<u8> {
    seq![(x & 0xffu32) as u8, ((x >> 8u32) & 0xffu32) as u8, ((x >> 16u32) & 0xffu32) as u8, ((x >> 24u32) & 0xffu32) as u8]
}

/// Reading back the two little-endian bytes of `x` gives `x`.
pub proof fn lemma_le_bytes16(x: u16)
    ensures
        le16(le_bytes16(x)[0], le_bytes16(x)[1]) == x,
{
    assert((x & 0xffu16) < 256 && (x & 0xffu16) + 256 * (x >> 8u16) == x) by (bit_vector);
}

/// Reading back the four little-endian bytes of `x` gives `x`.
pub proof fn lemma_le_bytes32(x: u32)
    ensures
        le32(le_bytes32(x)[0], le_bytes32(x)[1], le_bytes32(x)[2], le_bytes32(x)[3]) == x,
{
    assert((x & 0xffu32) < 256 && ((x >> 8u32) & 0xffu32) < 256 && ((x >> 16u32) & 0xffu32) < 256 && ((x
        >> 24u32) & 0xffu32) < 256 && (x & 0xffu32) + 256 * ((x >> 8u32) & 0xffu32) + 65536 * ((x >> 16u32)
        & 0xffu32) + 16777216 * ((x >> 24u32) & 0xffu32) == x) by (bit_vector);
}

/// The value of a zig-zag encoded integer.
pub open spec fn zigzag(raw: u32) -> i32 {
    ((raw >> 1u32) as i32) ^ ((-((raw & 1u32) as int)) as i32)
}

/// Bytes of a successful slice result, by value.
pub open spec fn bytes_res(r: Result<&[u8]>) -> Result<Seq<u8>> {
    match r {
        Ok(s) => Ok(s@),
        Err(e) => Err(e),
    }
}

impl CursorModel {
    pub open spec fn remaining(self) -> int {
        if 0 <= self.pos && self.pos < self.data.len() { self.data.len() - self.pos } else { 0 }
    }

    pub open spec fn advance(self, n: int) -> CursorModel {
        CursorModel { data: self.data, pos: self.pos + n, ctx: self.ctx }
    }

    pub open spec fn truncated(self, needed: int) -> VoltError {
        VoltError::Truncated { needed: needed as usize, remaining: self.remaining() as usize, context: self.ctx }
    }

    /// Reading `n` bytes: the bytes and the advanced cursor, or a truncation
    /// error and the cursor unchanged.
    pub open spec fn take(self, n: int) -> (Result<Seq<u8>>, CursorModel) {
        if self.remaining() < n {
            (Err(self.truncated(n)), self)
        } else {
            (Ok(self.data.subrange(self.pos, self.pos + n)), self.advance(n))
        }
    }

    pub open spec fn peek_u8(self) -> Result<u8> {
        if self.remaining() < 1 { Err(self.truncated(1)) } else { Ok(self.data[self.pos]) }
    }

    pub open spec fn read_u8(self) -> (Result<u8>, CursorModel) {
        match self.peek_u8() {
            Ok(b) => (Ok(b), self.advance(1)),
            Err(e) => (Err(e), self),
        }
    }

    pub open spec fn read_i8(self) -> (Result<i8>, CursorModel) {
        match self.read_u8() {
            (Ok(b), c) => (Ok(b as i8), c),
            (Err(e), c) => (Err(e), c),
        }
    }

    pub open spec fn read_u16(self) -> (Result<u16>, CursorModel) {
        match self.take(2) {
            (Ok(b), c) => (Ok(le16(b[0], b[1])), c),
            (Err(e), c) => (Err(e), c),
        }
    }

    pub open spec fn read_i16(self) -> (Result<i16>, CursorModel) {
        match self.read_u16() {
            (Ok(v), c) => (Ok(v as i16), c),
            (Err(e), c) => (Err(e), c),
        }
    }

    pub open spec fn read_u24(self) -> (Result<u32>, CursorModel) {
        match self.take(3) {
            (Ok(b), c) => (Ok(le24(b[0], b[1], b[2])), c),
            (Err(e), c) => (Err(e), c),
        }
    }

    pub open spec fn read_u32(self) -> (Result<u32>, CursorModel) {
        match self.take(4) {
            (Ok(b), c) => (Ok(le32(b[0], b[1], b[2], b[3])), c),
            (Err(e), c) => (Err(e), c),
        }
    }

    pub open spec fn read_i32(self) -> (Result<i32>, CursorModel) {
        match self.read_u32() {
            (Ok(v), c) => (Ok(v as i32), c),
            (Err(e), c) => (Err(e), c),
        }
    }

    pub open spec fn read_u64(self) -> (Result<u64>, CursorModel) {
        match self.take(8) {
            (Ok(b), c) => (Ok(le64(b)), c),
            (Err(e), c) => (Err(e), c),
        }
    }

    /// Reading the variable-length integer from its `i`-th byte on, with
    /// `value` holding the bits of the bytes before.
    pub open spec fn var_u32_from(self, i: int, value: u32) -> (Result<u32>, CursorModel)
        decreases 5 - i,
    {
        if i >= 5 || i < 0 {
            (Err(VoltError::InvalidValue("varint too long")), self)
        } else {
            match self.read_u8() {
                (Err(e), c) => (Err(e), c),
                (Ok(b), c) => {
                    let v = value | (((b & 0x7fu8) as u32) << ((7 * i) as u32));
                    if b & 0x80u8 == 0 {
                        (Ok(v), c)
                    } else {
                        c.var_u32_from(i + 1, v)
                    }
                },
            }
        }
    }

    pub open spec fn read_var_u32(self) -> (Result<u32>, CursorModel) {
        self.var_u32_from(0, 0)
    }

    pub open spec fn read_var_i32(self) -> (Result<i32>, CursorModel) {
        match self.read_var_u32() {
            (Ok(v), c) => (Ok(zigzag(v)), c),
            (Err(e), c) => (Err(e), c),
        }
    }

    pub open spec fn read_bytes_with_u8_len(self) -> (Result<Seq<u8>>, CursorModel) {
        match self.read_u8() {
            (Ok(n), c) => c.take(n as int),
            (Err(e), c) => (Err(e), c),
        }
    }

    pub open spec fn read_bytes_with_u16_len(self) -> (Result<Seq<u8>>, CursorModel) {
        match self.read_u16() {
            (Ok(n), c) => c.take(n as int),
            (Err(e), c) => (Err(e), c),
        }
    }

    /// A cursor over a fresh byte string, at its start.
    pub open spec fn fresh(data: Seq<u8>, ctx: &'static str) -> CursorModel {
        CursorModel { data, pos: 0, ctx }
    }
}

/// Every read leaves the bytes and the context alone and never moves back.
pub open spec fn moves_forward(c: CursorModel, c2: CursorModel) -> bool {
    c2.data == c.data && c2.ctx == c.ctx && c.pos <= c2.pos && (c.pos <= c.data.len() ==> c2.pos
        <= c.data.len())
}

/// Reading a variable-length integer only moves the cursor forward, and
/// past at least one byte when it succeeds.
pub proof fn lemma_var_u32_forward(c: CursorModel, i: int, value: u32)
    ensures
        moves_forward(c, c.var_u32_from(i, value).1),
        c.var_u32_from(i, value).0 is Ok ==> c.var_u32_from(i, value).1.pos > c.pos,
    decreases 5 - i,
{
    if 0 <= i < 5 {
        let (rb, c2) = c.read_u8();
        if let Ok(b) = rb {
            let v = value | (((b & 0x7fu8) as u32) << ((7 * i) as u32));
            if b & 0x80u8 != 0 {
                lemma_var_u32_forward(c2, i + 1, v);
            }
        }
    }
}

/// A forward-only reader over a byte slice that reports truncation with a
/// context string.
pub struct ByteCursor<'a> {
    data: &'a [u8],
    pos: usize,
    context: &'static str,
}

impl<'a> View for ByteCursor<'a> {
    type V = CursorModel;

    closed spec fn view(&self) -> CursorModel {
        CursorModel { data: self.data@, pos: self.pos as int, ctx: self.context }
    }
}

impl<'a> Clone for ByteCursor<'a> {
    fn clone(&self) -> (r: Self)
        ensures
            r@ == self@,
    {
        proof {
            use_type_invariant(self);
        }
        ByteCursor { data: self.data, pos: self.pos, context: self.context }
    }
}

impl<'a> ByteCursor<'a> {
    #[verifier::type_invariant]
    closed spec fn inv(self) -> bool {
        self.pos <= self.data@.len()
    }

    /// The position never passes the end of the bytes.
    pub fn check_wf(&self)
        ensures
            self@.pos <= self@.data.len(),
            self@.pos >= 0,
    {
        proof {
            use_type_invariant(self);
        }
    }

    pub fn new(data: &'a [u8], context: &'static str) -> (r: Self)
        ensures
            r@ == CursorModel::fresh(data@, context),
    {
        ByteCursor { data, pos: 0, context }
    }

    pub fn len(&self) -> (r: usize)
        ensures
            r == self@.data.len(),
    {
        self.data.len()
    }

    pub fn position(&self) -> (r: usize)
        ensures
            r == self@.pos,
    {
        self.pos
    }

    pub fn is_empty(&self) -> (r: bool)
        ensures
            r == (self@.remaining() == 0),
    {
        self.remaining() == 0
    }

    pub fn remaining(&self) -> (r: usize)
        ensures
            r == self@.remaining(),
    {
        proof {
            use_type_invariant(self);
        }
        self.data.len() - self.pos
    }

    pub fn context(&self) -> (r: &'static str)
        ensures
            r == self@.ctx,
    {
        self.context
    }

    pub fn set_context(&mut self, context: &'static str)
        ensures
            final(self)@ == (CursorModel { ctx: context, ..old(self)@ }),
    {
        proof {
            use_type_invariant(&*self);
        }
        self.context = context;
    }

    pub fn peek_u8(&self) -> (r: Result<u8>)
        ensures
            r == self@.peek_u8(),
    {
        proof {
            use_type_invariant(self);
        }
        if self.pos < self.data.len() {
            Ok(self.data[self.pos])
        } else {
            Err(VoltError::Truncated { needed: 1, remaining: self.remaining(), context: self.context })
        }
    }

    pub fn read_u8(&mut self) -> (r: Result<u8>)
        ensures
            (r, final(self)@) == old(self)@.read_u8(),
    {
        proof {
            use_type_invariant(&*self);
        }
        if self.pos < self.data.len() {
            let b = self.data[self.pos];
            self.pos = self.pos + 1;
            Ok(b)
        } else {
            Err(VoltError::Truncated { needed: 1, remaining: self.remaining(), context: self.context })
        }
    }

    pub fn read_i8(&mut self) -> (r: Result<i8>)
        ensures
            (r, final(self)@) == old(self)@.read_i8(),
    {
        let b = self.read_u8()?;
        Ok(b as i8)
    }

    pub fn read_u16(&mut self) -> (r: Result<u16>)
        ensures
            (r, final(self)@) == old(self)@.read_u16(),
    {
        let bytes = self.take(2)?;
        Ok(bytes[0] as u16 + (bytes[1] as u16) * 256)
    }

    pub fn read_i16(&mut self) -> (r: Result<i16>)
        ensures
            (r, final(self)@) == old(self)@.read_i16(),
    {
        let v = self.read_u16()?;
        Ok(v as i16)
    }

    pub fn read_u24(&mut self) -> (r: Result<u32>)
        ensures
            (r, final(self)@) == old(self)@.read_u24(),
    {
        let bytes = self.take(3)?;
        Ok(bytes[0] as u32 + (bytes[1] as u32) * 256 + (bytes[2] as u32) * 65536)
    }

    pub fn read_u32(&mut self) -> (r: Result<u32>)
        ensures
            (r, final(self)@) == old(self)@.read_u32(),
    {
        let bytes = self.take(4)?;
        Ok(bytes[0] as u32 + (bytes[1] as u32) * 256 + (bytes[2] as u32) * 65536 + (bytes[3] as u32)
            * 16777216)
    }

    pub fn read_i32(&mut self) -> (r: Result<i32>)
        ensures
            (r, final(self)@) == old(self)@.read_i32(),
    {
        let v = self.read_u32()?;
        Ok(v as i32)
    }

    pub fn read_u64(&mut self) -> (r: Result<u64>)
        ensures
            (r, final(self)@) == old(self)@.read_u64(),
    {
        let bytes = self.take(8)?;
        let lo = bytes[0] as u64 + (bytes[1] as u64) * 256 + (bytes[2] as u64) * 65536
            + (bytes[3] as u64) * 16777216;
        let hi = bytes[4] as u64 + (bytes[5] as u64) * 256 + (bytes[6] as u64) * 65536
            + (bytes[7] as u64) * 16777216;
        Ok(lo + hi * 4294967296)
    }

    pub fn read_var_u32(&mut self) -> (r: Result<u32>)
        ensures
            (r, final(self)@) == old(self)@.read_var_u32(),
    {
        let ghost start = self@;
        let mut shift: u32 = 0;
        let mut value: u32 = 0;
        let mut i: usize = 0;
        while i < 5
            invariant
                0 <= i <= 5,
                shift == 7 * i,
                old(self)@.var_u32_from(0, 0) == self@.var_u32_from(i as int, value),
            decreases 5 - i,
        {
            let ghost before = self@;
            let ghost old_value = value;
            let rb = self.read_u8();
            proof {
                assert(before.var_u32_from(i as int, old_value) == match rb {
                    Err(e) => (Err(e), self@),
                    Ok(b) => {
                        let v = old_value | (((b & 0x7fu8) as u32) << ((7 * i) as u32));
                        if b & 0x80u8 == 0 {
                            (Ok(v), self@)
                        } else {
                            self@.var_u32_from(i + 1, v)
                        }
                    },
                });
            }
            let b = match rb {
                Ok(b) => b,
                Err(e) => {
                    return Err(e);
                },
            };
            value = value | (((b & 0x7f) as u32) << shift);
            if b & 0x80 == 0 {
                return Ok(value);
            }
            shift = shift + 7;
            i = i + 1;
        }
        Err(VoltError::InvalidValue("varint too long"))
    }

    pub fn read_var_i32(&mut self) -> (r: Result<i32>)
        ensures
            (r, final(self)@) == old(self)@.read_var_i32(),
    {
        let raw = self.read_var_u32()?;
        let low = raw & 1;
        assert(raw & 1u32 <= 1) by (bit_vector);
        let neg: i32 = -(low as i32);
        Ok(((raw >> 1) as i32) ^ neg)
    }

    pub fn read_bytes_with_u8_len(&mut self) -> (r: Result<&'a [u8]>)
        ensures
            (bytes_res(r), final(self)@) == old(self)@.read_bytes_with_u8_len(),
    {
        let len = self.read_u8()? as usize;
        self.take(len)
    }

    pub fn read_bytes_with_u16_len(&mut self) -> (r: Result<&'a [u8]>)
        ensures
            (bytes_res(r), final(self)@) == old(self)@.read_bytes_with_u16_len(),
    {
        let len = self.read_u16()? as usize;
        self.take(len)
    }

    pub fn take(&mut self, len: usize) -> (r: Result<&'a [u8]>)
        ensures
            (bytes_res(r), final(self)@) == old(self)@.take(len as int),
    {
        proof {
            use_type_invariant(&*self);
        }
        if self.remaining() < len {
            return Err(
                VoltError::Truncated { needed: len, remaining: self.remaining(), context: self.context },
            );
        }
        let start = self.pos;
        let end = self.data.len() - (self.data.len() - self.pos - len);
        self.pos = end;
        Ok(slice_subrange(self.data, start, end))
    }

    pub fn take_remaining(&mut self) -> (r: &'a [u8])
        ensures
            r@ == old(self)@.data.subrange(old(self)@.pos, old(self)@.data.len() as int),
            final(self)@ == old(self)@.advance(old(self)@.remaining()),
    {
        proof {
            use_type_invariant(&*self);
        }
        let start = self.pos;
        self.pos = self.data.len();
        slice_subrange(self.data, start, self.data.len())
    }

    pub fn skip(&mut self, len: usize) -> (r: Result<()>)
        ensures
            final(self)@ == old(self)@.take(len as int).1,
            r is Ok <==> old(self)@.take(len as int).0 is Ok,
            r matches Err(e) ==> old(self)@.take(len as int).0 == Err::<Seq<u8>, VoltError>(e),
    {
        match self.take(len) {
            Ok(_) => Ok(()),
            Err(e) => Err(e),
        }
    }

    pub fn fork(&self, len: usize, context: &'static str) -> (r: Result<ByteCursor<'a>>)
        ensures
            match r {
                Ok(c) => self@.remaining() >= len && c@ == CursorModel::fresh(
                    self@.data.subrange(self@.pos, self@.pos + len),
                    context,
                ),
                Err(e) => self@.remaining() < len && e == self@.truncated(len as int),
            },
    {
        proof {
            use_type_invariant(self);
        }
        if self.remaining() < len {
            return Err(
                VoltError::Truncated { needed: len, remaining: self.remaining(), context: self.context },
            );
        }
        let end = self.pos + (self.data.len() - self.pos - (self.data.len() - self.pos - len));
        Ok(ByteCursor::new(slice_subrange(self.data, self.pos, end), context))
    }
}

} // verus!
