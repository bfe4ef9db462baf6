use vstd::prelude::*;
use vstd::bytes::{spec_u32_to_le_bytes, spec_u128_to_le_bytes, u128_from_le_bytes, u128_to_le_bytes};
use vstd::utf8::{decode_utf8, valid_utf8};
use vstd::string::StringSliceAdditionalSpecFns;
use crate::abi::codec::{
    bytes_read, parse_byte, parse_bytes, parse_u32, rest_after, value_of, Error, Parsed, Sink,
    Source,
};
use crate::types::{Address, H256};

verus! {

pub const TYPE_BYTEARRAY: u8 = 0x00;
pub const TYPE_STRING: u8 = 0x01;
pub const TYPE_ADDRESS: u8 = 0x02;
pub const TYPE_BOOL: u8 = 0x03;
pub const TYPE_INT: u8 = 0x04;
pub const TYPE_H256: u8 = 0x05;
pub const TYPE_LIST: u8 = 0x10;

// ---------------------------------------------------------------------------
// The format of VM values: a type tag, then the value
// ---------------------------------------------------------------------------

/// A tagged byte string: the tag, the length as 4 little-endian bytes
/// (taken modulo 2^32), and the bytes.
pub open spec fn vm_sized(tag: u8, data: Seq<u8>) -> Seq<u8> {
    seq![tag] + spec_u32_to_le_bytes(data.len() as u32) + data
}

/// A tagged value of fixed width.
pub open spec fn vm_fixed(tag: u8, data: Seq<u8>) -> Seq<u8> {
    seq![tag] + data
}

/// Reads the tag `tag`: another tag is a type error.
pub open spec fn parse_tag(s: Seq<u8>, tag: u8) -> Parsed<()> {
    match parse_byte(s) {
        Err(e) => Err(e),
        Ok((t, r)) => if t == tag { Ok(((), r)) } else { Err(Error::TypeInconsistency) },
    }
}

/// Reads a byte string with tag `tag`.
pub open spec fn parse_vm_sized(s: Seq<u8>, tag: u8) -> Parsed<Seq<u8>> {
    match parse_tag(s, tag) {
        Err(e) => Err(e),
        Ok((_, r)) => match parse_u32(r) {
            Err(e) => Err(e),
            Ok((n, r2)) => parse_bytes(r2, n as nat),
        },
    }
}

/// Reads `n` bytes after the tag `tag`.
pub open spec fn parse_vm_fixed(s: Seq<u8>, tag: u8, n: nat) -> Parsed<Seq<u8>> {
    match parse_tag(s, tag) {
        Err(e) => Err(e),
        Ok((_, r)) => parse_bytes(r, n),
    }
}

/// What reading a tagged byte string leaves of the data `s`: the rest after
/// it when it was read; when it was not, the data after the parts that were
/// read before the failure (the tag, and the length).
pub open spec fn vm_sized_rest(s: Seq<u8>, tag: u8) -> Seq<u8> {
    match parse_vm_sized(s, tag) {
        Ok((_, rest)) => rest,
        Err(_) => if s.len() == 0 {
            s
        } else if s[0] != tag || s.len() < 5 {
            s.skip(1)
        } else {
            s.skip(5)
        },
    }
}

/// What reading a tagged value of fixed width leaves of the data `s`.
pub open spec fn vm_fixed_rest(s: Seq<u8>, tag: u8, n: nat) -> Seq<u8> {
    match parse_vm_fixed(s, tag, n) {
        Ok((_, rest)) => rest,
        Err(_) => if s.len() == 0 { s } else { s.skip(1) },
    }
}

// ---------------------------------------------------------------------------
// Writing VM values
// ---------------------------------------------------------------------------

/// Writes VM values, each with its type tag.
pub struct VmValueBuilder {
    pub sink: Sink,
}

impl View for VmValueBuilder {
    type V = Seq<u8>;

    open spec fn view(&self) -> Seq<u8> {
        self.sink@
    }
}

impl VmValueBuilder {
    pub fn new() -> (r: VmValueBuilder)
        ensures
            r@ == Seq::<u8>::empty(),
    {
        VmValueBuilder { sink: Sink::new(64) }
    }

    pub fn string(&mut self, val: &str)
        ensures
            final(self)@ == old(self)@ + vm_sized(TYPE_STRING, val.spec_bytes()),
    {
        let b = val.as_bytes();
        self.sized(TYPE_STRING, b);
    }

    pub fn bytearray(&mut self, val: &[u8])
        ensures
            final(self)@ == old(self)@ + vm_sized(TYPE_BYTEARRAY, val@),
    {
        self.sized(TYPE_BYTEARRAY, val);
    }

    fn sized(&mut self, tag: u8, val: &[u8])
        ensures
            final(self)@ == old(self)@ + vm_sized(tag, val@),
    {
        let ghost s0 = self@;
        self.sink.write_byte(tag);
        self.sink.write_u32(val.len() as u32);
        self.sink.write_bytes(val);
        assert(self@ =~= s0 + vm_sized(tag, val@));
    }

    pub fn bool(&mut self, val: bool)
        ensures
            final(self)@ == old(self)@ + vm_fixed(TYPE_BOOL, seq![if val { 1u8 } else { 0u8 }]),
    {
        let ghost s0 = self@;
        self.sink.write_byte(TYPE_BOOL);
        self.sink.write_bool(val);
        assert(self@ =~= s0 + vm_fixed(TYPE_BOOL, seq![if val { 1u8 } else { 0u8 }]));
    }

    pub fn number(&mut self, val: u128)
        ensures
            final(self)@ == old(self)@ + vm_fixed(TYPE_INT, spec_u128_to_le_bytes(val)),
    {
        let ghost s0 = self@;
        self.sink.write_byte(TYPE_INT);
        let b = u128_to_le_bytes(val);
        self.sink.write_bytes(b.as_slice());
        assert(self@ =~= s0 + vm_fixed(TYPE_INT, spec_u128_to_le_bytes(val)));
    }

    pub fn h256(&mut self, val: &H256)
        ensures
            final(self)@ == old(self)@ + vm_fixed(TYPE_H256, val.bytes@),
    {
        let ghost s0 = self@;
        self.sink.write_byte(TYPE_H256);
        self.sink.write_bytes(val.bytes.as_slice());
        assert(self@ =~= s0 + vm_fixed(TYPE_H256, val.bytes@));
    }

    pub fn address(&mut self, val: &Address)
        ensures
            final(self)@ == old(self)@ + vm_fixed(TYPE_ADDRESS, val.bytes@),
    {
        let ghost s0 = self@;
        self.sink.write_byte(TYPE_ADDRESS);
        self.sink.write_bytes(val.bytes.as_slice());
        assert(self@ =~= s0 + vm_fixed(TYPE_ADDRESS, val.bytes@));
    }

    /// The bytes written so far.
    pub fn bytes(&self) -> (r: &[u8])
        ensures
            r@ == self@,
    {
        self.sink.bytes()
    }
}

// ---------------------------------------------------------------------------
// Reading VM values
// ---------------------------------------------------------------------------

/// Reads VM values, each checked against its type tag.
pub struct VmValueParser {
    pub source: Source,
}

impl View for VmValueParser {
    type V = Seq<u8>;

    open spec fn view(&self) -> Seq<u8> {
        self.source@
    }
}

/// `core::str::from_utf8`, with the bytes copied into a `String`: `None`
/// exactly when the bytes are not UTF-8, and otherwise the characters they
/// encode (as std documents it).
#[verifier::external_body]
fn utf8_string(b: &[u8]) -> (r: Option<String>)
    ensures
        r is Some <==> valid_utf8(b@),
        r matches Some(s) ==> s@ == decode_utf8(b@),
{
    match core::str::from_utf8(b) {
        Ok(s) => Some(s.to_owned()),
        Err(_) => None,
    }
}

impl VmValueParser {
    pub fn new(data: Vec<u8>) -> (r: VmValueParser)
        ensures
            r@ == data@,
    {
        VmValueParser { source: Source::new(data) }
    }

    fn sized(&mut self, tag: u8) -> (r: Result<Vec<u8>, Error>)
        ensures
            bytes_read(r, parse_vm_sized(old(self)@, tag)),
            final(self)@ == vm_sized_rest(old(self)@, tag),
    {
        let ghost s = self@;
        let t = match self.source.read_byte() {
            Ok(t) => t,
            Err(e) => { return Err(e); },
        };
        if t != tag {
            return Err(Error::TypeInconsistency);
        }
        let n = match self.source.read_u32() {
            Ok(n) => n,
            Err(e) => { return Err(e); },
        };
        proof {
            assert(s.skip(1).skip(4) =~= s.skip(5));
        }
        self.source.read_bytes(n as usize)
    }

    fn fixed(&mut self, tag: u8, n: usize) -> (r: Result<Vec<u8>, Error>)
        ensures
            bytes_read(r, parse_vm_fixed(old(self)@, tag, n as nat)),
            final(self)@ == vm_fixed_rest(old(self)@, tag, n as nat),
            r matches Ok(v) ==> v@.len() == n,
    {
        let t = match self.source.read_byte() {
            Ok(t) => t,
            Err(e) => { return Err(e); },
        };
        if t != tag {
            return Err(Error::TypeInconsistency);
        }
        self.source.read_bytes(n)
    }

    /// Reads a byte string.
    pub fn bytearray_vec(&mut self) -> (r: Result<Vec<u8>, Error>)
        ensures
            bytes_read(r, parse_vm_sized(old(self)@, TYPE_BYTEARRAY)),
            final(self)@ == vm_sized_rest(old(self)@, TYPE_BYTEARRAY),
    {
        self.sized(TYPE_BYTEARRAY)
    }

    /// Reads a string; bytes that are not UTF-8 are irregular.
    pub fn string(&mut self) -> (r: Result<String, Error>)
        ensures
            match parse_vm_sized(old(self)@, TYPE_STRING) {
                Ok((b, _)) => if valid_utf8(b) {
                    r matches Ok(x) && x@ == decode_utf8(b)
                } else {
                    r == Err::<String, Error>(Error::IrregularData)
                },
                Err(e) => r == Err::<String, Error>(e),
            },
            final(self)@ == vm_sized_rest(old(self)@, TYPE_STRING),
    {
        match self.sized(TYPE_STRING) {
            Ok(b) => match utf8_string(b.as_slice()) {
                Some(x) => Ok(x),
                None => Err(Error::IrregularData),
            },
            Err(e) => Err(e),
        }
    }

    /// Reads a boolean: one byte, 0 or 1.
    pub fn bool(&mut self) -> (r: Result<bool, Error>)
        ensures
            match parse_vm_fixed(old(self)@, TYPE_BOOL, 1) {
                Ok((b, _)) => if b[0] == 0 {
                    r == Ok::<bool, Error>(false)
                } else if b[0] == 1 {
                    r == Ok::<bool, Error>(true)
                } else {
                    r == Err::<bool, Error>(Error::IrregularData)
                },
                Err(e) => r == Err::<bool, Error>(e),
            },
            final(self)@ == vm_fixed_rest(old(self)@, TYPE_BOOL, 1),
    {
        match self.fixed(TYPE_BOOL, 1) {
            Ok(b) => {
                if b[0] == 0 {
                    Ok(false)
                } else if b[0] == 1 {
                    Ok(true)
                } else {
                    Err(Error::IrregularData)
                }
            },
            Err(e) => Err(e),
        }
    }

    /// Reads a 128-bit number, little-endian.
    pub fn number(&mut self) -> (r: Result<u128, Error>)
        ensures
            match parse_vm_fixed(old(self)@, TYPE_INT, 16) {
                Ok((b, _)) => r == Ok::<u128, Error>(vstd::bytes::spec_u128_from_le_bytes(b)),
                Err(e) => r == Err::<u128, Error>(e),
            },
            final(self)@ == vm_fixed_rest(old(self)@, TYPE_INT, 16),
    {
        match self.fixed(TYPE_INT, 16) {
            Ok(b) => Ok(u128_from_le_bytes(b.as_slice())),
            Err(e) => Err(e),
        }
    }

    /// Reads a 32-byte hash.
    pub fn h256(&mut self) -> (r: Result<H256, Error>)
        ensures
            match parse_vm_fixed(old(self)@, TYPE_H256, 32) {
                Ok((b, _)) => r matches Ok(h) && h.bytes@ == b,
                Err(e) => r == Err::<H256, Error>(e),
            },
            final(self)@ == vm_fixed_rest(old(self)@, TYPE_H256, 32),
    {
        match self.fixed(TYPE_H256, 32) {
            Ok(b) => {
                let mut bytes = [0u8; 32];
                let mut i: usize = 0;
                while i < 32
                    invariant
                        i <= 32,
                        b@.len() == 32,
                        forall|j: int| 0 <= j < i ==> bytes@[j] == b@[j],
                    decreases 32 - i,
                {
                    bytes[i] = b[i];
                    i += 1;
                }
                assert(bytes@ =~= b@);
                Ok(H256 { bytes })
            },
            Err(e) => Err(e),
        }
    }

    /// Reads a 20-byte address.
    pub fn address(&mut self) -> (r: Result<Address, Error>)
        ensures
            match parse_vm_fixed(old(self)@, TYPE_ADDRESS, 20) {
                Ok((b, _)) => r matches Ok(a) && a.bytes@ == b,
                Err(e) => r == Err::<Address, Error>(e),
            },
            final(self)@ == vm_fixed_rest(old(self)@, TYPE_ADDRESS, 20),
    {
        match self.fixed(TYPE_ADDRESS, 20) {
            Ok(b) => {
                let mut bytes = [0u8; 20];
                let mut i: usize = 0;
                while i < 20
                    invariant
                        i <= 20,
                        b@.len() == 20,
                        forall|j: int| 0 <= j < i ==> bytes@[j] == b@[j],
                    decreases 20 - i,
                {
                    bytes[i] = b[i];
                    i += 1;
                }
                assert(bytes@ =~= b@);
                Ok(Address { bytes })
            },
            Err(e) => Err(e),
        }
    }
}

} // verus!
