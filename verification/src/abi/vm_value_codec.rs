use vstd::prelude::*;
use vstd::bytes::{lemma_auto_spec_u128_to_from_le_bytes, spec_u128_from_le_bytes, spec_u128_to_le_bytes, spec_u32_to_le_bytes};
use vstd::string::StringSliceAdditionalSpecFns;
use vstd::utf8::{decode_utf8, encode_utf8, encode_utf8_decode_utf8, encode_utf8_valid_utf8, valid_utf8};
use crate::abi::codec::{bytes_read, lemma_parse_byte, lemma_parse_u32, parse_bytes, parse_u32, Error, Parsed};
use crate::abi::vm_value::{
    parse_tag, parse_vm_fixed, parse_vm_sized, vm_fixed, vm_fixed_rest, vm_sized, vm_sized_rest,
    VmValueBuilder, VmValueParser, TYPE_ADDRESS, TYPE_BOOL, TYPE_BYTEARRAY, TYPE_H256, TYPE_INT,
    TYPE_LIST, TYPE_STRING,
};
use crate::types::{Address, H256};

verus! {

/// A value that can be written as a VM value.
pub trait VmValueEncoder {
    /// The bytes that `serialize` writes for this value.
    spec fn vm_bytes(&self) -> Seq<u8>;

    fn serialize(&self, builder: &mut VmValueBuilder)
        ensures
            final(builder)@ == old(builder)@ + self.vm_bytes(),
    ;
}

impl<'a> VmValueEncoder for &'a str {
    open spec fn vm_bytes(&self) -> Seq<u8> {
        vm_sized(TYPE_STRING, (*self).spec_bytes())
    }

    fn serialize(&self, builder: &mut VmValueBuilder) {
        builder.string(self);
    }
}

impl<'a> VmValueEncoder for &'a [u8] {
    open spec fn vm_bytes(&self) -> Seq<u8> {
        vm_sized(TYPE_BYTEARRAY, (*self)@)
    }

    fn serialize(&self, builder: &mut VmValueBuilder) {
        builder.bytearray(self);
    }
}

impl VmValueEncoder for bool {
    open spec fn vm_bytes(&self) -> Seq<u8> {
        vm_fixed(TYPE_BOOL, seq![if *self { 1u8 } else { 0u8 }])
    }

    fn serialize(&self, builder: &mut VmValueBuilder) {
        builder.bool(*self);
    }
}

impl VmValueEncoder for H256 {
    open spec fn vm_bytes(&self) -> Seq<u8> {
        vm_fixed(TYPE_H256, self.bytes@)
    }

    fn serialize(&self, builder: &mut VmValueBuilder) {
        builder.h256(self);
    }
}

impl VmValueEncoder for u128 {
    open spec fn vm_bytes(&self) -> Seq<u8> {
        vm_fixed(TYPE_INT, spec_u128_to_le_bytes(*self))
    }

    fn serialize(&self, builder: &mut VmValueBuilder) {
        builder.number(*self);
    }
}

impl VmValueEncoder for Address {
    open spec fn vm_bytes(&self) -> Seq<u8> {
        vm_fixed(TYPE_ADDRESS, self.bytes@)
    }

    fn serialize(&self, builder: &mut VmValueBuilder) {
        builder.address(self);
    }
}

impl<'a, T: VmValueEncoder> VmValueEncoder for &'a T {
    open spec fn vm_bytes(&self) -> Seq<u8> {
        (**self).vm_bytes()
    }

    fn serialize(&self, builder: &mut VmValueBuilder) {
        (**self).serialize(builder)
    }
}

/// A value that can be read as a VM value.
pub trait VmValueDecoder: Sized {
    /// Reading a value of this type from the data `s` may give `r` and leave
    /// `rest`.
    spec fn vm_read(s: Seq<u8>, r: Result<Self, Error>, rest: Seq<u8>) -> bool;

    fn deserialize(parser: &mut VmValueParser) -> (r: Result<Self, Error>)
        ensures
            Self::vm_read(old(parser)@, r, final(parser)@),
    ;
}

impl VmValueDecoder for String {
    open spec fn vm_read(s: Seq<u8>, r: Result<String, Error>, rest: Seq<u8>) -> bool {
        &&& rest == vm_sized_rest(s, TYPE_STRING)
        &&& match parse_vm_sized(s, TYPE_STRING) {
            Ok((b, _)) => if valid_utf8(b) {
                r matches Ok(x) && x@ == decode_utf8(b)
            } else {
                r == Err::<String, Error>(Error::IrregularData)
            },
            Err(e) => r == Err::<String, Error>(e),
        }
    }

    fn deserialize(parser: &mut VmValueParser) -> (r: Result<String, Error>) {
        parser.string()
    }
}

impl VmValueDecoder for Vec<u8> {
    open spec fn vm_read(s: Seq<u8>, r: Result<Vec<u8>, Error>, rest: Seq<u8>) -> bool {
        &&& rest == vm_sized_rest(s, TYPE_BYTEARRAY)
        &&& bytes_read(r, parse_vm_sized(s, TYPE_BYTEARRAY))
    }

    fn deserialize(parser: &mut VmValueParser) -> (r: Result<Vec<u8>, Error>) {
        parser.bytearray_vec()
    }
}

impl VmValueDecoder for bool {
    open spec fn vm_read(s: Seq<u8>, r: Result<bool, Error>, rest: Seq<u8>) -> bool {
        &&& rest == vm_fixed_rest(s, TYPE_BOOL, 1)
        &&& match parse_vm_fixed(s, TYPE_BOOL, 1) {
            Ok((b, _)) => if b[0] == 0 {
                r == Ok::<bool, Error>(false)
            } else if b[0] == 1 {
                r == Ok::<bool, Error>(true)
            } else {
                r == Err::<bool, Error>(Error::IrregularData)
            },
            Err(e) => r == Err::<bool, Error>(e),
        }
    }

    fn deserialize(parser: &mut VmValueParser) -> (r: Result<bool, Error>) {
        parser.bool()
    }
}

impl VmValueDecoder for H256 {
    open spec fn vm_read(s: Seq<u8>, r: Result<H256, Error>, rest: Seq<u8>) -> bool {
        &&& rest == vm_fixed_rest(s, TYPE_H256, 32)
        &&& match parse_vm_fixed(s, TYPE_H256, 32) {
            Ok((b, _)) => r matches Ok(h) && h.bytes@ == b,
            Err(e) => r == Err::<H256, Error>(e),
        }
    }

    fn deserialize(parser: &mut VmValueParser) -> (r: Result<H256, Error>) {
        parser.h256()
    }
}

impl VmValueDecoder for u128 {
    open spec fn vm_read(s: Seq<u8>, r: Result<u128, Error>, rest: Seq<u8>) -> bool {
        &&& rest == vm_fixed_rest(s, TYPE_INT, 16)
        &&& match parse_vm_fixed(s, TYPE_INT, 16) {
            Ok((b, _)) => r == Ok::<u128, Error>(spec_u128_from_le_bytes(b)),
            Err(e) => r == Err::<u128, Error>(e),
        }
    }

    fn deserialize(parser: &mut VmValueParser) -> (r: Result<u128, Error>) {
        parser.number()
    }
}

impl VmValueDecoder for Address {
    open spec fn vm_read(s: Seq<u8>, r: Result<Address, Error>, rest: Seq<u8>) -> bool {
        &&& rest == vm_fixed_rest(s, TYPE_ADDRESS, 20)
        &&& match parse_vm_fixed(s, TYPE_ADDRESS, 20) {
            Ok((b, _)) => r matches Ok(a) && a.bytes@ == b,
            Err(e) => r == Err::<Address, Error>(e),
        }
    }

    fn deserialize(parser: &mut VmValueParser) -> (r: Result<Address, Error>) {
        parser.address()
    }
}

/// Reading the values `items` one after the other passes through the data
/// `states`: the value `items[i]` is read from `states[i]` and leaves
/// `states[i + 1]`.
pub open spec fn items_chain<T: VmValueDecoder>(items: Seq<T>, states: Seq<Seq<u8>>) -> bool {
    &&& states.len() == items.len() + 1
    &&& forall|i: int| #![trigger items[i]] 0 <= i < items.len() ==> T::vm_read(states[i], Ok(items[i]), states[i + 1])
}

/// A list is read as `TYPE_LIST`, its length as 4 little-endian bytes, and
/// that many values.
impl<T: VmValueDecoder> VmValueDecoder for Vec<T> {
    open spec fn vm_read(s: Seq<u8>, r: Result<Vec<T>, Error>, rest: Seq<u8>) -> bool {
        match parse_tag(s, TYPE_LIST) {
            Err(e) => r == Err::<Vec<T>, Error>(e) && rest == (if s.len() == 0 { s } else { s.skip(1) }),
            Ok((_, s1)) => match parse_u32(s1) {
                Err(e) => r == Err::<Vec<T>, Error>(e) && rest == s1,
                Ok((n, s2)) => match r {
                    Ok(v) => v@.len() == n && exists|states: Seq<Seq<u8>>|
                        #[trigger] items_chain(v@, states) && states[0] == s2 && states.last() == rest,
                    Err(e) => exists|pre: Seq<T>, states: Seq<Seq<u8>>|
                        pre.len() < n && #[trigger] items_chain(pre, states) && states[0] == s2
                            && T::vm_read(states.last(), Err(e), rest),
                },
            },
        }
    }

    fn deserialize(parser: &mut VmValueParser) -> (r: Result<Vec<T>, Error>) {
        let ghost s = parser@;
        let ty = match parser.source.read_byte() {
            Ok(t) => t,
            Err(e) => { return Err(e); },
        };
        if ty != TYPE_LIST {
            return Err(Error::TypeInconsistency);
        }
        let len = match parser.source.read_u32() {
            Ok(n) => n,
            Err(e) => { return Err(e); },
        };
        let ghost s2 = parser@;
        assert(parse_tag(s, TYPE_LIST) == Ok::<((), Seq<u8>), Error>(((), s.skip(1))));
        assert(parse_u32(s.skip(1)) == Ok::<(u32, Seq<u8>), Error>((len, s2)));
        let cap = if len < 1024 { len } else { 1024 };
        let mut value: Vec<T> = Vec::with_capacity(cap as usize);
        let mut i: u32 = 0;
        let ghost mut states: Seq<Seq<u8>> = seq![s2];
        while i < len
            invariant
                i <= len,
                value@.len() == i,
                items_chain(value@, states),
                states[0] == s2,
                s == old(parser)@,
                parse_tag(s, TYPE_LIST) == Ok::<((), Seq<u8>), Error>(((), s.skip(1))),
                parse_u32(s.skip(1)) == Ok::<(u32, Seq<u8>), Error>((len, s2)),
                states.last() == parser@,
            decreases len - i,
        {
            let ghost before = parser@;
            let ghost items = value@;
            let res = T::deserialize(parser);
            let ghost after = parser@;
            assert(T::vm_read(before, res, after));
            match res {
                Ok(x) => {
                    let ghost xv = x;
                    value.push(x);
                    proof {
                        let states0 = states;
                        states = states.push(after);
                        assert(value@ =~= items.push(xv));
                        assert forall|k: int| #![trigger value@[k]] 0 <= k < value@.len() implies T::vm_read(states[k], Ok(value@[k]), states[k + 1]) by {
                            if k < items.len() {
                                assert(items[k] == value@[k]);
                                assert(T::vm_read(states0[k], Ok(items[k]), states0[k + 1]));
                            }
                        }
                    }
                },
                Err(e) => {
                    proof {
                        assert(items_chain(items, states));
                        assert(T::vm_read(before, Err(e), after));
                        assert(items.len() < len);
                        assert(states.last() == before);
                        assert(exists|pre: Seq<T>, st: Seq<Seq<u8>>|
                            pre.len() < len && #[trigger] items_chain(pre, st) && st[0] == s2
                                && T::vm_read(st.last(), Err(e), after));
                        assert(Self::vm_read(s, Err(e), after));
                    }
                    return Err(e);
                },
            }
            i += 1;
        }
        proof {
            assert(items_chain(value@, states));
            assert(exists|st: Seq<Seq<u8>>| #[trigger] items_chain(value@, st) && st[0] == s2 && st.last() == parser@);
            assert(Self::vm_read(s, Ok(value), parser@));
        }
        Ok(value)
    }
}

// ---------------------------------------------------------------------------
// Reading back what was written
// ---------------------------------------------------------------------------

/// A tagged byte string is read back whole, and what follows it is left.
pub proof fn lemma_parse_vm_sized(tag: u8, data: Seq<u8>, rest: Seq<u8>)
    requires
        data.len() <= u32::MAX,
    ensures
        parse_vm_sized(vm_sized(tag, data) + rest, tag) == Ok::<(Seq<u8>, Seq<u8>), Error>((data, rest)),
        vm_sized_rest(vm_sized(tag, data) + rest, tag) == rest,
{
    let n = data.len() as u32;
    let t = spec_u32_to_le_bytes(n) + (data + rest);
    assert(vm_sized(tag, data) + rest =~= seq![tag] + t);
    lemma_parse_byte(tag, t);
    lemma_parse_u32(n, data + rest);
    assert((data + rest).take(n as int) =~= data);
    assert((data + rest).skip(n as int) =~= rest);
}

/// A tagged value of fixed width is read back whole, and what follows it is
/// left.
pub proof fn lemma_parse_vm_fixed(tag: u8, data: Seq<u8>, rest: Seq<u8>)
    ensures
        parse_vm_fixed(vm_fixed(tag, data) + rest, tag, data.len()) == Ok::<(Seq<u8>, Seq<u8>), Error>((data, rest)),
        vm_fixed_rest(vm_fixed(tag, data) + rest, tag, data.len()) == rest,
{
    assert(vm_fixed(tag, data) + rest =~= seq![tag] + (data + rest));
    lemma_parse_byte(tag, data + rest);
    assert((data + rest).take(data.len() as int) =~= data);
    assert((data + rest).skip(data.len() as int) =~= rest);
}

/// A string written by `serialize` is read back by `deserialize` as the
/// same text, and what follows it is left.
pub proof fn law_string_round_trip(text: &str, rest: Seq<u8>, r: Result<String, Error>, left: Seq<u8>)
    requires
        text.spec_bytes().len() <= u32::MAX,
        <String as VmValueDecoder>::vm_read(text.vm_bytes() + rest, r, left),
    ensures
        r matches Ok(x) && x@ == text@,
        left == rest,
{
    lemma_parse_vm_sized(TYPE_STRING, text.spec_bytes(), rest);
    encode_utf8_valid_utf8(text@);
    encode_utf8_decode_utf8(text@);
}

/// A byte string written by `serialize` is read back by `deserialize`, and
/// what follows it is left.
pub proof fn law_bytes_round_trip(data: &[u8], rest: Seq<u8>, r: Result<Vec<u8>, Error>, left: Seq<u8>)
    requires
        data@.len() <= u32::MAX,
        <Vec<u8> as VmValueDecoder>::vm_read(data.vm_bytes() + rest, r, left),
    ensures
        r matches Ok(x) && x@ == data@,
        left == rest,
{
    lemma_parse_vm_sized(TYPE_BYTEARRAY, data@, rest);
}

/// A `bool` written by `serialize` is read back by `deserialize`.
pub proof fn law_bool_round_trip(b: bool, rest: Seq<u8>, r: Result<bool, Error>, left: Seq<u8>)
    requires
        <bool as VmValueDecoder>::vm_read(b.vm_bytes() + rest, r, left),
    ensures
        r == Ok::<bool, Error>(b),
        left == rest,
{
    lemma_parse_vm_fixed(TYPE_BOOL, seq![if b { 1u8 } else { 0u8 }], rest);
}

/// A number written by `serialize` is read back by `deserialize`.
pub proof fn law_number_round_trip(n: u128, rest: Seq<u8>, r: Result<u128, Error>, left: Seq<u8>)
    requires
        <u128 as VmValueDecoder>::vm_read(n.vm_bytes() + rest, r, left),
    ensures
        r == Ok::<u128, Error>(n),
        left == rest,
{
    lemma_auto_spec_u128_to_from_le_bytes();
    lemma_parse_vm_fixed(TYPE_INT, spec_u128_to_le_bytes(n), rest);
}

/// A hash written by `serialize` is read back by `deserialize`.
pub proof fn law_h256_round_trip(h: H256, rest: Seq<u8>, r: Result<H256, Error>, left: Seq<u8>)
    requires
        <H256 as VmValueDecoder>::vm_read(h.vm_bytes() + rest, r, left),
    ensures
        r matches Ok(x) && x.bytes@ == h.bytes@,
        left == rest,
{
    lemma_parse_vm_fixed(TYPE_H256, h.bytes@, rest);
}

/// An address written by `serialize` is read back by `deserialize`.
pub proof fn law_address_round_trip(a: Address, rest: Seq<u8>, r: Result<Address, Error>, left: Seq<u8>)
    requires
        <Address as VmValueDecoder>::vm_read(a.vm_bytes() + rest, r, left),
    ensures
        r matches Ok(x) && x.bytes@ == a.bytes@,
        left == rest,
{
    lemma_parse_vm_fixed(TYPE_ADDRESS, a.bytes@, rest);
}

/// `serialize` of a bool writes the bool tag and then the byte 1 for `true`
/// and 0 for `false`, as `VmValueBuilder::bool` does.
pub proof fn law_bool_bytes(b: bool)
    ensures
        true.vm_bytes() == seq![TYPE_BOOL, 1u8],
        false.vm_bytes() == seq![TYPE_BOOL, 0u8],
        b.vm_bytes() == seq![TYPE_BOOL, if b { 1u8 } else { 0u8 }],
{
    assert(true.vm_bytes() =~= seq![TYPE_BOOL, 1u8]);
    assert(false.vm_bytes() =~= seq![TYPE_BOOL, 0u8]);
}

/// `deserialize` of a bool reads the bool tag and a byte: 1 is `true`, 0 is
/// `false`, any other byte is irregular data; what follows is left.
pub proof fn law_bool_read(x: u8, rest: Seq<u8>, r: Result<bool, Error>, left: Seq<u8>)
    requires
        <bool as VmValueDecoder>::vm_read(seq![TYPE_BOOL, x] + rest, r, left),
    ensures
        x == 1 ==> r == Ok::<bool, Error>(true),
        x == 0 ==> r == Ok::<bool, Error>(false),
        x > 1 ==> r == Err::<bool, Error>(Error::IrregularData),
        left == rest,
{
    lemma_parse_vm_fixed(TYPE_BOOL, seq![x], rest);
    assert(vm_fixed(TYPE_BOOL, seq![x]) + rest =~= seq![TYPE_BOOL, x] + rest);
}

/// The byte layouts that `serialize` writes: a type tag (0x00 byte string,
/// 0x01 string, 0x02 address, 0x04 number, 0x05 hash), then for a byte
/// string or a string its length as 4 little-endian bytes and its bytes, for
/// a number its 16 little-endian bytes, and for an address or a hash its
/// bytes.
pub proof fn law_vm_layouts(text: &str, data: &[u8], a: Address, n: u128, h: H256)
    ensures
        text.vm_bytes() == seq![0x01u8] + spec_u32_to_le_bytes(text.spec_bytes().len() as u32) + text.spec_bytes(),
        data.vm_bytes() == seq![0x00u8] + spec_u32_to_le_bytes(data@.len() as u32) + data@,
        a.vm_bytes() == seq![0x02u8] + a.bytes@,
        n.vm_bytes() == seq![0x04u8] + spec_u128_to_le_bytes(n),
        h.vm_bytes() == seq![0x05u8] + h.bytes@,
{
}

} // verus!
