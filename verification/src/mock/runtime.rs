use vstd::prelude::*;
use vstd::slice::slice_to_vec;
use crate::types::Address;

verus! {

/// Whether some entry of `e` has key `k`.
pub open spec fn has_key(e: Seq<(Vec<u8>, Vec<u8>)>, k: Seq<u8>) -> bool {
    exists|i: int| 0 <= i < e.len() && (#[trigger] e[i]).0@ == k
}

/// The index of the entry of `e` with key `k`.
pub open spec fn key_index(e: Seq<(Vec<u8>, Vec<u8>)>, k: Seq<u8>) -> int {
    choose|i: int| 0 <= i < e.len() && (#[trigger] e[i]).0@ == k
}

/// The map that a list of entries stands for.
pub open spec fn entries_map(e: Seq<(Vec<u8>, Vec<u8>)>) -> Map<Seq<u8>, Seq<u8>> {
    Map::new(|k: Seq<u8>| has_key(e, k), |k: Seq<u8>| e[key_index(e, k)].1@)
}

/// No two entries have the same key.
pub open spec fn distinct_keys(e: Seq<(Vec<u8>, Vec<u8>)>) -> bool {
    forall|i: int, j: int| 0 <= i < e.len() && 0 <= j < e.len() && (#[trigger] e[i]).0@ == (#[trigger] e[j]).0@ ==> i == j
}

/// Key-value storage of a mock contract runtime.
pub struct Storage {
    entries: Vec<(Vec<u8>, Vec<u8>)>,
}

impl View for Storage {
    type V = Map<Seq<u8>, Seq<u8>>;

    closed spec fn view(&self) -> Map<Seq<u8>, Seq<u8>> {
        entries_map(self.entries@)
    }
}

fn bytes_eq_slice(a: &Vec<u8>, b: &[u8]) -> (r: bool)
    ensures
        r == (a@ == b@),
{
    if a.len() != b.len() {
        return false;
    }
    let mut i: usize = 0;
    while i < a.len()
        invariant
            i <= a@.len(),
            a@.len() == b@.len(),
            forall|j: int| 0 <= j < i ==> a@[j] == b@[j],
        decreases a@.len() - i,
    {
        if a[i] != b[i] {
            return false;
        }
        i += 1;
    }
    assert(a@ =~= b@);
    true
}

impl Storage {
    #[verifier::type_invariant]
    spec fn inv(self) -> bool {
        distinct_keys(self.entries@)
    }

    pub fn new() -> (r: Storage)
        ensures
            r@ == Map::<Seq<u8>, Seq<u8>>::empty(),
    {
        let r = Storage { entries: Vec::new() };
        assert(r@ =~= Map::<Seq<u8>, Seq<u8>>::empty());
        r
    }

    fn find(&self, key: &[u8]) -> (r: Option<usize>)
        ensures
            match r {
                Some(i) => i < self.entries@.len() && self.entries@[i as int].0@ == key@,
                None => !has_key(self.entries@, key@),
            },
    {
        let mut i: usize = 0;
        while i < self.entries.len()
            invariant
                i <= self.entries@.len(),
                forall|j: int| 0 <= j < i ==> (#[trigger] self.entries@[j]).0@ != key@,
            decreases self.entries@.len() - i,
        {
            if bytes_eq_slice(&self.entries[i].0, key) {
                return Some(i);
            }
            i += 1;
        }
        None
    }

    /// The value under `key`, if there is one.
    pub fn read(&self, key: &[u8]) -> (r: Option<Vec<u8>>)
        ensures
            match r {
                Some(v) => self@.contains_key(key@) && v@ == self@[key@],
                None => !self@.contains_key(key@),
            },
    {
        proof {
            use_type_invariant(self);
        }
        match self.find(key) {
            Some(i) => {
                let v = self.entries[i].1.clone();
                proof {
                    assert(v@ =~= self.entries@[i as int].1@);
                    let j = key_index(self.entries@, key@);
                    assert(self.entries@[j].0@ == key@);
                }
                Some(v)
            },
            None => None,
        }
    }

    /// Every key with its value, each key once.
    pub fn pairs(&self) -> (r: Vec<(Vec<u8>, Vec<u8>)>)
        ensures
            distinct_keys(r@),
            entries_map(r@) == self@,
    {
        proof {
            use_type_invariant(self);
        }
        let mut r: Vec<(Vec<u8>, Vec<u8>)> = Vec::new();
        let mut i: usize = 0;
        while i < self.entries.len()
            invariant
                i <= self.entries@.len(),
                r@.len() == i,
                distinct_keys(self.entries@),
                forall|j: int| 0 <= j < i ==> (#[trigger] r@[j]).0@ == self.entries@[j].0@ && r@[j].1@ == self.entries@[j].1@,
            decreases self.entries@.len() - i,
        {
            let k = slice_to_vec(self.entries[i].0.as_slice());
            let v = slice_to_vec(self.entries[i].1.as_slice());
            r.push((k, v));
            i += 1;
        }
        let ghost e = self.entries@;
        assert(distinct_keys(r@)) by {
            assert forall|a: int, b: int| 0 <= a < r@.len() && 0 <= b < r@.len() && (#[trigger] r@[a]).0@ == (#[trigger] r@[b]).0@ implies a == b by {
                assert(e[a].0@ == e[b].0@);
            }
        }
        assert forall|k: Seq<u8>| has_key(r@, k) == has_key(e, k) by {
            if has_key(r@, k) {
                let j = choose|j: int| 0 <= j < r@.len() && (#[trigger] r@[j]).0@ == k;
                assert(e[j].0@ == k);
            }
            if has_key(e, k) {
                let j = choose|j: int| 0 <= j < e.len() && (#[trigger] e[j]).0@ == k;
                assert(r@[j].0@ == k);
            }
        }
        assert forall|k: Seq<u8>| has_key(r@, k) implies r@[key_index(r@, k)].1@ == e[key_index(e, k)].1@ by {
            let a = key_index(r@, k);
            let b = key_index(e, k);
            assert(e[a].0@ == k);
            assert(e[b].0@ == k);
        }
        assert(entries_map(r@) =~= entries_map(e));
        r
    }

    /// Stores `val` under `key`, in place of any value there.
    pub fn write(&mut self, key: &[u8], val: &[u8])
        ensures
            final(self)@ == old(self)@.insert(key@, val@),
    {
        proof {
            use_type_invariant(&*self);
        }
        let ghost e0 = self.entries@;
        let k = slice_to_vec(key);
        let v = slice_to_vec(val);
        let found = self.find(key);
        let mut entries: Vec<(Vec<u8>, Vec<u8>)> = Vec::new();
        std::mem::swap(&mut entries, &mut self.entries);
        match found {
            Some(i) => {
                entries.set(i, (k, v));
            },
            None => {
                entries.push((k, v));
            },
        }
        let ghost e1 = entries@;
        proof {
            assert(distinct_keys(e1)) by {
                assert forall|a: int, b: int| 0 <= a < e1.len() && 0 <= b < e1.len() && (#[trigger] e1[a]).0@ == (#[trigger] e1[b]).0@ implies a == b by {
                    if a < e0.len() && b < e0.len() {
                        if found is Some {
                            let i = found->0 as int;
                            if a != i && b != i {
                                assert(e0[a] == e1[a] && e0[b] == e1[b]);
                            } else if a == i && b != i {
                                assert(e0[b] == e1[b]);
                            } else if b == i && a != i {
                                assert(e0[a] == e1[a]);
                            }
                        } else {
                            assert(e0[a] == e1[a] && e0[b] == e1[b]);
                        }
                    } else if a < e0.len() {
                        assert(e0[a] == e1[a]);
                    } else if b < e0.len() {
                        assert(e0[b] == e1[b]);
                    }
                }
            }
        }
        self.entries = entries;
        proof {
            let ni: int = match found { Some(i) => i as int, None => e0.len() as int };
            assert(e1[ni].0@ == key@);
            assert forall|j: int| 0 <= j < e1.len() && j != ni implies e1[j] == e0[j] by {}
            assert forall|kk: Seq<u8>| #[trigger] has_key(e1, kk) == (kk == key@ || has_key(e0, kk)) by {
                if has_key(e0, kk) && kk != key@ {
                    let j = key_index(e0, kk);
                    assert(e1[j].0@ == kk);
                }
                if has_key(e1, kk) && kk != key@ {
                    let j = key_index(e1, kk);
                    assert(e0[j].0@ == kk);
                }
            }
            assert forall|kk: Seq<u8>| has_key(e1, kk) implies #[trigger] e1[key_index(e1, kk)].1@
                == (if kk == key@ { val@ } else { e0[key_index(e0, kk)].1@ }) by {
                let j1 = key_index(e1, kk);
                if kk != key@ {
                    let j0 = key_index(e0, kk);
                    assert(e1[j0].0@ == kk);
                }
            }
            assert(entries_map(e1) =~= entries_map(e0).insert(key@, val@));
        }
    }

    /// Removes any value under `key`.
    pub fn delete(&mut self, key: &[u8])
        ensures
            final(self)@ == old(self)@.remove(key@),
    {
        proof {
            use_type_invariant(&*self);
        }
        let ghost e0 = self.entries@;
        match self.find(key) {
            Some(i) => {
                let mut entries: Vec<(Vec<u8>, Vec<u8>)> = Vec::new();
                std::mem::swap(&mut entries, &mut self.entries);
                entries.remove(i);
                proof {
                    let e1 = entries@;
                    assert(e1 =~= e0.remove(i as int));
                    assert(distinct_keys(e1)) by {
                        assert forall|a: int, b: int| 0 <= a < e1.len() && 0 <= b < e1.len() && (#[trigger] e1[a]).0@ == (#[trigger] e1[b]).0@ implies a == b by {
                            let a0 = if a < i { a } else { a + 1 };
                            let b0 = if b < i { b } else { b + 1 };
                            assert(e1[a] == e0[a0] && e1[b] == e0[b0]);
                        }
                    }
                }
                self.entries = entries;
                proof {
                    let e1 = self.entries@;
                    assert(e1 =~= e0.remove(i as int));
                    assert forall|kk: Seq<u8>| #[trigger] has_key(e1, kk) == (kk != key@ && has_key(e0, kk)) by {
                        if has_key(e0, kk) && kk != key@ {
                            let j = key_index(e0, kk);
                            if j < i {
                                assert(e1[j].0@ == kk);
                            } else {
                                assert(e1[j - 1].0@ == kk);
                            }
                        }
                    }
                    assert forall|kk: Seq<u8>| has_key(e1, kk) implies #[trigger] e1[key_index(e1, kk)].1@
                        == e0[key_index(e0, kk)].1@ by {
                        let j1 = key_index(e1, kk);
                        if j1 < i {
                            assert(e0[j1].0@ == kk);
                        } else {
                            assert(e0[j1 + 1].0@ == kk);
                        }
                    }
                    assert(entries_map(e1) =~= entries_map(e0).remove(key@));
                }
            },
            None => {
                assert(entries_map(e0) =~= entries_map(e0).remove(key@));
            },
        }
    }
}

/// Mock of the contract execution runtime: the state that the host keeps
/// for a contract, with its storage, block data, addresses, witnesses, and
/// the notifications and debug messages that the contract has sent.
pub struct Runtime {
    pub storage: Storage,
    pub timestamp: u64,
    pub block_height: u64,
    pub caller: Address,
    pub self_addr: Address,
    pub witness: Vec<Address>,
    pub notify: Vec<Vec<u8>>,
    pub call_output_length: u32,
    pub debug: Vec<String>,
}

impl Runtime {
    /// A runtime with empty storage, zero block data and zero addresses.
    pub fn new() -> (r: Runtime)
        ensures
            r.storage@ == Map::<Seq<u8>, Seq<u8>>::empty(),
            r.timestamp == 0,
            r.block_height == 0,
            r.caller.bytes@ == Seq::new(20, |i: int| 0u8),
            r.self_addr.bytes@ == Seq::new(20, |i: int| 0u8),
            r.witness@.len() == 0,
            r.notify@.len() == 0,
            r.call_output_length == 0,
            r.debug@.len() == 0,
    {
        Runtime {
            storage: Storage::new(),
            timestamp: 0,
            block_height: 0,
            caller: Address::zero(),
            self_addr: Address::zero(),
            witness: Vec::new(),
            notify: Vec::new(),
            call_output_length: 0,
            debug: Vec::new(),
        }
    }

    /// A call into another contract; the mock has none to call.
    pub fn call_contract(&self, addr: &Address, input: &[u8]) -> (r: Option<Vec<u8>>)
        ensures
            r is None,
    {
        None
    }

    pub fn call_output_length(&self) -> (r: u32)
        ensures
            r == self.call_output_length,
    {
        self.call_output_length
    }

    /// The output of the last call; the mock has none, and leaves `dst` as it is.
    pub fn get_call_output(&self, dst: &mut Vec<u8>)
        ensures
            final(dst)@ == old(dst)@,
    {
    }

    pub fn storage_write(&mut self, key: &[u8], val: &[u8])
        ensures
            final(self).storage@ == old(self).storage@.insert(key@, val@),
            unchanged_but_storage(*old(self), *final(self)),
    {
        self.storage.write(key, val);
    }

    pub fn storage_read(&self, key: &[u8]) -> (r: Option<Vec<u8>>)
        ensures
            match r {
                Some(v) => self.storage@.contains_key(key@) && v@ == self.storage@[key@],
                None => !self.storage@.contains_key(key@),
            },
    {
        self.storage.read(key)
    }

    pub fn storage_delete(&mut self, key: &[u8])
        ensures
            final(self).storage@ == old(self).storage@.remove(key@),
            unchanged_but_storage(*old(self), *final(self)),
    {
        self.storage.delete(key);
    }

    pub fn timestamp(&self) -> (r: u64)
        ensures
            r == self.timestamp,
    {
        self.timestamp
    }

    pub fn block_height(&self) -> (r: u64)
        ensures
            r == self.block_height,
    {
        self.block_height
    }

    /// The address of the running contract.
    pub fn address(&self) -> (r: Address)
        ensures
            r == self.self_addr,
    {
        self.self_addr
    }

    pub fn caller(&self) -> (r: Address)
        ensures
            r == self.caller,
    {
        self.caller
    }

    /// Whether `addr` is among the witnesses.
    pub fn check_witness(&self, addr: &Address) -> (r: bool)
        ensures
            r == exists|i: int| 0 <= i < self.witness@.len() && (#[trigger] self.witness@[i]).bytes@ == addr.bytes@,
    {
        let mut i: usize = 0;
        while i < self.witness.len()
            invariant
                i <= self.witness@.len(),
                forall|j: int| 0 <= j < i ==> (#[trigger] self.witness@[j]).bytes@ != addr.bytes@,
            decreases self.witness@.len() - i,
        {
            if self.witness[i].same(addr) {
                return true;
            }
            i += 1;
        }
        false
    }

    /// Records an event.
    pub fn notify(&mut self, msg: &[u8])
        ensures
            final(self).notify@.len() == old(self).notify@.len() + 1,
            forall|i: int| 0 <= i < old(self).notify@.len() ==> final(self).notify@[i] == old(self).notify@[i],
            final(self).notify@.last()@ == msg@,
            final(self).storage == old(self).storage,
            final(self).debug == old(self).debug,
            final(self).witness == old(self).witness,
            final(self).timestamp == old(self).timestamp,
            final(self).block_height == old(self).block_height,
            final(self).caller == old(self).caller,
            final(self).self_addr == old(self).self_addr,
            final(self).call_output_length == old(self).call_output_length,
    {
        self.notify.push(slice_to_vec(msg));
    }

    /// Records a debug message.
    pub fn debug(&mut self, msg: &str)
        ensures
            final(self).debug@.len() == old(self).debug@.len() + 1,
            forall|i: int| 0 <= i < old(self).debug@.len() ==> final(self).debug@[i] == old(self).debug@[i],
            final(self).debug@.last()@ == msg@,
            final(self).storage == old(self).storage,
            final(self).notify == old(self).notify,
            final(self).witness == old(self).witness,
            final(self).timestamp == old(self).timestamp,
            final(self).block_height == old(self).block_height,
            final(self).caller == old(self).caller,
            final(self).self_addr == old(self).self_addr,
            final(self).call_output_length == old(self).call_output_length,
    {
        self.debug.push(msg.to_owned());
    }
}

impl Default for Runtime {
    /// The same as `Runtime::new()`.
    fn default() -> (r: Runtime)
        ensures
            r.storage@ == Map::<Seq<u8>, Seq<u8>>::empty(),
            r.timestamp == 0,
            r.block_height == 0,
            r.caller.bytes@ == Seq::new(20, |i: int| 0u8),
            r.self_addr.bytes@ == Seq::new(20, |i: int| 0u8),
            r.witness@.len() == 0,
            r.notify@.len() == 0,
            r.call_output_length == 0,
            r.debug@.len() == 0,
    {
        Runtime::new()
    }
}

/// `a` and `b` agree on everything but their storage.
pub open spec fn unchanged_but_storage(a: Runtime, b: Runtime) -> bool {
    &&& a.timestamp == b.timestamp
    &&& a.block_height == b.block_height
    &&& a.caller == b.caller
    &&& a.self_addr == b.self_addr
    &&& a.witness == b.witness
    &&& a.notify == b.notify
    &&& a.call_output_length == b.call_output_length
    &&& a.debug == b.debug
}

/// The storage laws: a read after a write under the same key gives the
/// value written, a read after a delete finds nothing, and a write or a
/// delete leaves every other key as it was.
pub proof fn law_storage(st: Map<Seq<u8>, Seq<u8>>, key: Seq<u8>, val: Seq<u8>, other: Seq<u8>)
    requires
        other != key,
    ensures
        st.insert(key, val).contains_key(key) && st.insert(key, val)[key] == val,
        !st.remove(key).contains_key(key),
        st.insert(key, val).contains_key(other) == st.contains_key(other),
        st.remove(key).contains_key(other) == st.contains_key(other),
        st.contains_key(other) ==> st.insert(key, val)[other] == st[other] && st.remove(key)[other] == st[other],
{
}

} // verus!
