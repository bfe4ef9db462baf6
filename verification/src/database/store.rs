use vstd::prelude::*;
use crate::abi::codec::{lemma_parse_varbytes, bytes_read, parse_varbytes, varbytes, Error, Sink, Source};
use crate::mock::runtime::{unchanged_but_storage, Runtime};

verus! {

/// Stores the byte string `val` under `key`, written with its length.
pub fn put(rt: &mut Runtime, key: &[u8], val: &[u8])
    ensures
        final(rt).storage@ == old(rt).storage@.insert(key@, varbytes(val@)),
        unchanged_but_storage(*old(rt), *final(rt)),
{
    let mut sink = Sink::new(16);
    sink.write_varbytes(val);
    rt.storage_write(key, sink.bytes());
}


/// The byte string stored under `key` by `put`, if there is a value there.
pub fn get(rt: &Runtime, key: &[u8]) -> (r: Option<Result<Vec<u8>, Error>>)
    ensures
        match r {
            None => !rt.storage@.contains_key(key@),
            Some(res) => rt.storage@.contains_key(key@) && bytes_read(res, parse_varbytes(rt.storage@[key@])),
        },
{
    match rt.storage_read(key) {
        None => None,
        Some(v) => {
            let mut source = Source::new(v);
            Some(source.read_varbytes())
        },
    }
}

/// `get` gives back what `put` stored under the same key, and `put` leaves
/// every other key as it was.
pub proof fn law_get_after_put(st: Map<Seq<u8>, Seq<u8>>, key: Seq<u8>, val: Seq<u8>, other: Seq<u8>)
    requires
        val.len() <= u64::MAX,
        other != key,
    ensures
        st.insert(key, varbytes(val)).contains_key(key),
        parse_varbytes(st.insert(key, varbytes(val))[key]) == Ok::<(Seq<u8>, Seq<u8>), Error>((val, Seq::empty())),
        st.insert(key, varbytes(val)).contains_key(other) == st.contains_key(other),
        st.contains_key(other) ==> st.insert(key, varbytes(val))[other] == st[other],
{
    lemma_parse_varbytes(val, Seq::empty());
    assert(varbytes(val) + Seq::<u8>::empty() =~= varbytes(val));
}

} // verus!
