use vstd::prelude::*;
use vstd::bytes::{
    lemma_auto_spec_u16_to_from_le_bytes, lemma_auto_spec_u32_to_from_le_bytes,
    lemma_auto_spec_u64_to_from_le_bytes,
    spec_u16_from_le_bytes, spec_u16_to_le_bytes, spec_u32_from_le_bytes, spec_u32_to_le_bytes,
    spec_u64_from_le_bytes, spec_u64_to_le_bytes, u16_from_le_bytes, u32_from_le_bytes,
    u32_to_le_bytes, u64_from_le_bytes, u64_to_le_bytes, u16_to_le_bytes,
};

verus! {

/// Why a value could not be read.
#[derive(Debug, Clone, Copy, PartialEq, Eq, Structural)]
pub enum Error {
    /// The data ends before the value does.
    UnexpectedEOF,
    /// The data does not hold a value of the expected form.
    IrregularData,
    /// A value of another type was found.
    TypeInconsistency,
}

// ---------------------------------------------------------------------------
// The byte format
// ---------------------------------------------------------------------------

/// The variable-length encoding of `v`: one byte below 0xFD, else a tag
/// byte (0xFD, 0xFE, 0xFF) and the value in 2, 4 or 8 little-endian bytes.
pub open spec fn varuint_bytes(v: u64) -> Seq<u8> {
    if v < 0xFD {
        seq![v as u8]
    } else if v <= 0xFFFF {
        seq![0xFDu8] + spec_u16_to_le_bytes(v as u16)
    } else if v <= 0xFFFF_FFFF {
        seq![0xFEu8] + spec_u32_to_le_bytes(v as u32)
    } else {
        seq![0xFFu8] + spec_u64_to_le_bytes(v)
    }
}

/// A byte string: its length as a `varuint`, then its bytes.
pub open spec fn varbytes(data: Seq<u8>) -> Seq<u8> {
    varuint_bytes(data.len() as u64) + data
}

/// The result of reading a value of type `T` from the front of some bytes:
/// the value and the bytes after it, or why it could not be read.
pub type Parsed<T> = Result<(T, Seq<u8>), Error>;

/// What a read leaves of the data `s`: the rest after the value, or all of
/// `s` when the read failed.
pub open spec fn rest_after<T>(r: Parsed<T>, s: Seq<u8>) -> Seq<u8> {
    match r {
        Ok((_, rest)) => rest,
        Err(_) => s,
    }
}

/// The value read, or the error.
pub open spec fn value_of<T>(r: Parsed<T>) -> Result<T, Error> {
    match r {
        Ok((v, _)) => Ok(v),
        Err(e) => Err(e),
    }
}

/// A read of a byte string returned `r`, and `p` says what it should have.
pub open spec fn bytes_read(r: Result<Vec<u8>, Error>, p: Parsed<Seq<u8>>) -> bool {
    match (r, p) {
        (Ok(v), Ok((x, _))) => v@ == x,
        (Err(e1), Err(e2)) => e1 == e2,
        _ => false,
    }
}

pub open spec fn parse_bytes(s: Seq<u8>, n: nat) -> Parsed<Seq<u8>> {
    if n <= s.len() {
        Ok((s.take(n as int), s.skip(n as int)))
    } else {
        Err(Error::UnexpectedEOF)
    }
}

pub open spec fn parse_byte(s: Seq<u8>) -> Parsed<u8> {
    if s.len() >= 1 {
        Ok((s[0], s.skip(1)))
    } else {
        Err(Error::UnexpectedEOF)
    }
}

pub open spec fn parse_u16(s: Seq<u8>) -> Parsed<u16> {
    if s.len() >= 2 {
        Ok((spec_u16_from_le_bytes(s.take(2)), s.skip(2)))
    } else {
        Err(Error::UnexpectedEOF)
    }
}

pub open spec fn parse_u32(s: Seq<u8>) -> Parsed<u32> {
    if s.len() >= 4 {
        Ok((spec_u32_from_le_bytes(s.take(4)), s.skip(4)))
    } else {
        Err(Error::UnexpectedEOF)
    }
}

pub open spec fn parse_u64(s: Seq<u8>) -> Parsed<u64> {
    if s.len() >= 8 {
        Ok((spec_u64_from_le_bytes(s.take(8)), s.skip(8)))
    } else {
        Err(Error::UnexpectedEOF)
    }
}

/// Reads a `varuint`; a value written in more bytes than it needs is
/// irregular.
pub open spec fn parse_varuint(s: Seq<u8>) -> Parsed<u64> {
    match parse_byte(s) {
        Err(e) => Err(e),
        Ok((t, r)) => if t == 0xFD {
            match parse_u16(r) {
                Ok((v, r2)) => if v >= 0xFD { Ok((v as u64, r2)) } else { Err(Error::IrregularData) },
                Err(e) => Err(e),
            }
        } else if t == 0xFE {
            match parse_u32(r) {
                Ok((v, r2)) => if v > 0xFFFF { Ok((v as u64, r2)) } else { Err(Error::IrregularData) },
                Err(e) => Err(e),
            }
        } else if t == 0xFF {
            match parse_u64(r) {
                Ok((v, r2)) => if v > 0xFFFF_FFFF { Ok((v, r2)) } else { Err(Error::IrregularData) },
                Err(e) => Err(e),
            }
        } else {
            Ok((t as u64, r))
        },
    }
}

pub open spec fn parse_varbytes(s: Seq<u8>) -> Parsed<Seq<u8>> {
    match parse_varuint(s) {
        Err(e) => Err(e),
        Ok((n, r)) => parse_bytes(r, n as nat),
    }
}

pub open spec fn parse_bool(s: Seq<u8>) -> Parsed<bool> {
    match parse_byte(s) {
        Err(e) => Err(e),
        Ok((b, r)) => if b == 0 {
            Ok((false, r))
        } else if b == 1 {
            Ok((true, r))
        } else {
            Err(Error::IrregularData)
        },
    }
}

// ---------------------------------------------------------------------------
// What is read back of what was written
// ---------------------------------------------------------------------------

pub proof fn lemma_parse_u16(x: u16, rest: Seq<u8>)
    ensures
        parse_u16(spec_u16_to_le_bytes(x) + rest) == Ok::<(u16, Seq<u8>), Error>((x, rest)),
{
    lemma_auto_spec_u16_to_from_le_bytes();
    let s = spec_u16_to_le_bytes(x) + rest;
    assert(s.take(2) =~= spec_u16_to_le_bytes(x));
    assert(s.skip(2) =~= rest);
}

pub proof fn lemma_parse_u32(x: u32, rest: Seq<u8>)
    ensures
        parse_u32(spec_u32_to_le_bytes(x) + rest) == Ok::<(u32, Seq<u8>), Error>((x, rest)),
{
    lemma_auto_spec_u32_to_from_le_bytes();
    let s = spec_u32_to_le_bytes(x) + rest;
    assert(s.take(4) =~= spec_u32_to_le_bytes(x));
    assert(s.skip(4) =~= rest);
}

pub proof fn lemma_parse_u64(x: u64, rest: Seq<u8>)
    ensures
        parse_u64(spec_u64_to_le_bytes(x) + rest) == Ok::<(u64, Seq<u8>), Error>((x, rest)),
{
    lemma_auto_spec_u64_to_from_le_bytes();
    let s = spec_u64_to_le_bytes(x) + rest;
    assert(s.take(8) =~= spec_u64_to_le_bytes(x));
    assert(s.skip(8) =~= rest);
}

pub proof fn lemma_parse_byte(b: u8, rest: Seq<u8>)
    ensures
        parse_byte(seq![b] + rest) == Ok::<(u8, Seq<u8>), Error>((b, rest)),
{
    assert((seq![b] + rest).skip(1) =~= rest);
}

/// Reading a `varuint` gives back the value written, and leaves what
/// follows it.
pub proof fn lemma_parse_varuint(v: u64, rest: Seq<u8>)
    ensures
        parse_varuint(varuint_bytes(v) + rest) == Ok::<(u64, Seq<u8>), Error>((v, rest)),
{
    if v < 0xFD {
        lemma_parse_byte(v as u8, rest);
    } else if v <= 0xFFFF {
        let t = spec_u16_to_le_bytes(v as u16) + rest;
        assert(varuint_bytes(v) + rest =~= seq![0xFDu8] + t);
        lemma_parse_byte(0xFDu8, t);
        lemma_parse_u16(v as u16, rest);
    } else if v <= 0xFFFF_FFFF {
        let t = spec_u32_to_le_bytes(v as u32) + rest;
        assert(varuint_bytes(v) + rest =~= seq![0xFEu8] + t);
        lemma_parse_byte(0xFEu8, t);
        lemma_parse_u32(v as u32, rest);
    } else {
        let t = spec_u64_to_le_bytes(v) + rest;
        assert(varuint_bytes(v) + rest =~= seq![0xFFu8] + t);
        lemma_parse_byte(0xFFu8, t);
        lemma_parse_u64(v, rest);
    }
}

/// Reading a byte string gives back the bytes written, and leaves what
/// follows them.
pub proof fn lemma_parse_varbytes(data: Seq<u8>, rest: Seq<u8>)
    requires
        data.len() <= u64::MAX,
    ensures
        parse_varbytes(varbytes(data) + rest) == Ok::<(Seq<u8>, Seq<u8>), Error>((data, rest)),
{
    let t = data + rest;
    assert(varbytes(data) + rest =~= varuint_bytes(data.len() as u64) + t);
    lemma_parse_varuint(data.len() as u64, t);
    assert(t.take(data.len() as int) =~= data);
    assert(t.skip(data.len() as int) =~= rest);
}

// ---------------------------------------------------------------------------
// Writing
// ---------------------------------------------------------------------------

/// A growing buffer that values are written into.
pub struct Sink {
    buf: Vec<u8>,
}

impl View for Sink {
    type V = Seq<u8>;

    closed spec fn view(&self) -> Seq<u8> {
        self.buf@
    }
}

impl Sink {
    pub fn new(cap: usize) -> (r: Sink)
        ensures
            r@ == Seq::<u8>::empty(),
    {
        Sink { buf: Vec::with_capacity(cap) }
    }

    pub fn write_byte(&mut self, b: u8)
        ensures
            final(self)@ == old(self)@.push(b),
    {
        self.buf.push(b);
    }

    pub fn write_bytes(&mut self, data: &[u8])
        ensures
            final(self)@ == old(self)@ + data@,
    {
        self.buf.extend_from_slice(data);
    }

    pub fn write_bool(&mut self, b: bool)
        ensures
            final(self)@ == old(self)@.push(if b { 1u8 } else { 0u8 }),
    {
        self.buf.push(if b { 1u8 } else { 0u8 });
    }

    pub fn write_u16(&mut self, v: u16)
        ensures
            final(self)@ == old(self)@ + spec_u16_to_le_bytes(v),
    {
        let b = u16_to_le_bytes(v);
        self.buf.extend_from_slice(b.as_slice());
    }

    pub fn write_u32(&mut self, v: u32)
        ensures
            final(self)@ == old(self)@ + spec_u32_to_le_bytes(v),
    {
        let b = u32_to_le_bytes(v);
        self.buf.extend_from_slice(b.as_slice());
    }

    pub fn write_u64(&mut self, v: u64)
        ensures
            final(self)@ == old(self)@ + spec_u64_to_le_bytes(v),
    {
        let b = u64_to_le_bytes(v);
        self.buf.extend_from_slice(b.as_slice());
    }

    pub fn write_varuint(&mut self, v: u64)
        ensures
            final(self)@ == old(self)@ + varuint_bytes(v),
    {
        let ghost s0 = self@;
        if v < 0xFD {
            self.write_byte(v as u8);
            assert(self@ =~= s0 + varuint_bytes(v));
        } else if v <= 0xFFFF {
            self.write_byte(0xFD);
            self.write_u16(v as u16);
            assert(self@ =~= s0 + varuint_bytes(v));
        } else if v <= 0xFFFF_FFFF {
            self.write_byte(0xFE);
            self.write_u32(v as u32);
            assert(self@ =~= s0 + varuint_bytes(v));
        } else {
            self.write_byte(0xFF);
            self.write_u64(v);
            assert(self@ =~= s0 + varuint_bytes(v));
        }
    }

    /// Writes the length of `data` and then its bytes.
    pub fn write_varbytes(&mut self, data: &[u8])
        ensures
            final(self)@ == old(self)@ + varbytes(data@),
    {
        let ghost s0 = self@;
        self.write_varuint(data.len() as u64);
        self.write_bytes(data);
        assert(self@ =~= s0 + varbytes(data@));
    }

    /// The bytes written so far.
    pub fn bytes(&self) -> (r: &[u8])
        ensures
            r@ == self@,
    {
        self.buf.as_slice()
    }
}

// ---------------------------------------------------------------------------
// Reading
// ---------------------------------------------------------------------------

/// Bytes that values are read from, front to back.
pub struct Source {
    buf: Vec<u8>,
    pos: usize,
}

impl View for Source {
    type V = Seq<u8>;

    /// The bytes not read yet.
    closed spec fn view(&self) -> Seq<u8> {
        self.buf@.skip(self.pos as int)
    }
}

impl Source {
    /// All the bytes, read or not.
    pub closed spec fn data(&self) -> Seq<u8> {
        self.buf@
    }

    #[verifier::type_invariant]
    spec fn inv(self) -> bool {
        self.pos <= self.buf@.len()
    }

    pub fn new(data: Vec<u8>) -> (r: Source)
        ensures
            r@ == data@,
    {
        let r = Source { buf: data, pos: 0 };
        assert(r.buf@.skip(0) =~= data@);
        r
    }

    pub fn read_byte(&mut self) -> (r: Result<u8, Error>)
        ensures
            r == value_of(parse_byte(old(self)@)),
            final(self)@ == rest_after(parse_byte(old(self)@), old(self)@),
            final(self).data() == old(self).data(),
    {
        proof {
            use_type_invariant(&*self);
        }
        if self.pos < self.buf.len() {
            let ghost s0 = self@;
            let b = self.buf[self.pos];
            self.pos = self.pos + 1;
            assert(self@ =~= s0.skip(1));
            Ok(b)
        } else {
            Err(Error::UnexpectedEOF)
        }
    }

    pub fn read_bool(&mut self) -> (r: Result<bool, Error>)
        ensures
            r == value_of(parse_bool(old(self)@)),
            final(self)@ == rest_after(parse_bool(old(self)@), old(self)@),
            final(self).data() == old(self).data(),
    {
        proof {
            use_type_invariant(&*self);
        }
        let saved = self.pos;
        match self.read_byte() {
            Ok(0) => Ok(false),
            Ok(1) => Ok(true),
            Ok(_) => {
                self.pos = saved;
                Err(Error::IrregularData)
            },
            Err(e) => Err(e),
        }
    }

    pub fn read_u16(&mut self) -> (r: Result<u16, Error>)
        ensures
            r == value_of(parse_u16(old(self)@)),
            final(self)@ == rest_after(parse_u16(old(self)@), old(self)@),
            final(self).data() == old(self).data(),
    {
        match self.read_bytes(2) {
            Ok(b) => Ok(u16_from_le_bytes(b.as_slice())),
            Err(e) => Err(e),
        }
    }

    pub fn read_u32(&mut self) -> (r: Result<u32, Error>)
        ensures
            r == value_of(parse_u32(old(self)@)),
            final(self)@ == rest_after(parse_u32(old(self)@), old(self)@),
            final(self).data() == old(self).data(),
    {
        match self.read_bytes(4) {
            Ok(b) => Ok(u32_from_le_bytes(b.as_slice())),
            Err(e) => Err(e),
        }
    }

    pub fn read_u64(&mut self) -> (r: Result<u64, Error>)
        ensures
            r == value_of(parse_u64(old(self)@)),
            final(self)@ == rest_after(parse_u64(old(self)@), old(self)@),
            final(self).data() == old(self).data(),
    {
        match self.read_bytes(8) {
            Ok(b) => Ok(u64_from_le_bytes(b.as_slice())),
            Err(e) => Err(e),
        }
    }

    pub fn read_varuint(&mut self) -> (r: Result<u64, Error>)
        ensures
            r == value_of(parse_varuint(old(self)@)),
            final(self)@ == rest_after(parse_varuint(old(self)@), old(self)@),
            final(self).data() == old(self).data(),
    {
        proof {
            use_type_invariant(&*self);
        }
        let saved = self.pos;
        let ghost s0 = self@;
        let t = match self.read_byte() {
            Ok(t) => t,
            Err(e) => { return Err(e); },
        };
        if t == 0xFD {
            match self.read_u16() {
                Ok(v) => {
                    if v >= 0xFD {
                        return Ok(v as u64);
                    }
                    self.pos = saved;
                    Err(Error::IrregularData)
                },
                Err(e) => {
                    self.pos = saved;
                    Err(e)
                },
            }
        } else if t == 0xFE {
            match self.read_u32() {
                Ok(v) => {
                    if v > 0xFFFF {
                        return Ok(v as u64);
                    }
                    self.pos = saved;
                    Err(Error::IrregularData)
                },
                Err(e) => {
                    self.pos = saved;
                    Err(e)
                },
            }
        } else if t == 0xFF {
            match self.read_u64() {
                Ok(v) => {
                    if v > 0xFFFF_FFFF {
                        return Ok(v);
                    }
                    self.pos = saved;
                    Err(Error::IrregularData)
                },
                Err(e) => {
                    self.pos = saved;
                    Err(e)
                },
            }
        } else {
            Ok(t as u64)
        }
    }

    /// Reads a length and then that many bytes.
    pub fn read_varbytes(&mut self) -> (r: Result<Vec<u8>, Error>)
        ensures
            bytes_read(r, parse_varbytes(old(self)@)),
            final(self)@ == rest_after(parse_varbytes(old(self)@), old(self)@),
            final(self).data() == old(self).data(),
    {
        proof {
            use_type_invariant(&*self);
        }
        let saved = self.pos;
        let n = match self.read_varuint() {
            Ok(n) => n,
            Err(e) => { return Err(e); },
        };
        proof {
            use_type_invariant(&*self);
        }
        if n > (self.buf.len() - self.pos) as u64 {
            self.pos = saved;
            return Err(Error::UnexpectedEOF);
        }
        match self.read_bytes(n as usize) {
            Ok(v) => Ok(v),
            Err(e) => {
                self.pos = saved;
                Err(e)
            },
        }
    }

    /// Reads `n` bytes.
    pub fn read_bytes(&mut self, n: usize) -> (r: Result<Vec<u8>, Error>)
        ensures
            bytes_read(r, parse_bytes(old(self)@, n as nat)),
            final(self)@ == rest_after(parse_bytes(old(self)@, n as nat), old(self)@),
            final(self).data() == old(self).data(),
    {
        proof {
            use_type_invariant(&*self);
        }
        let len = self.buf.len();
        if n > len - self.pos {
            return Err(Error::UnexpectedEOF);
        }
        let mut v: Vec<u8> = Vec::new();
        let mut i: usize = 0;
        while i < n
            invariant
                i <= n,
                self.pos + n <= self.buf@.len(),
                len == self.buf@.len(),
                v@ == self.buf@.subrange(self.pos as int, self.pos + i),
            decreases n - i,
        {
            v.push(self.buf[self.pos + i]);
            i += 1;
            assert(v@ =~= self.buf@.subrange(self.pos as int, self.pos + i));
        }
        let ghost s0 = self@;
        self.pos = self.pos + n;
        assert(v@ =~= s0.take(n as int));
        assert(self@ =~= s0.skip(n as int));
        Ok(v)
    }
}

} // verus!
