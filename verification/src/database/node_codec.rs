use vstd::prelude::*;
use vstd::slice::slice_to_vec;
use vstd::bytes::{spec_u32_to_le_bytes, spec_u64_to_le_bytes};
use crate::abi::codec::{
    lemma_parse_byte, lemma_parse_u32, lemma_parse_u64, lemma_parse_varbytes, bytes_read, parse_byte, parse_u32, parse_u64, parse_varbytes, rest_after, varbytes, Error, Parsed, Sink,
    Source,
};
use crate::database::node::{lemma_model_children, Node, NodeModel};
use crate::database::store::{get, put};
use crate::database::node_tree::{new_tree, NodeTree, TreeModel};
use crate::mock::runtime::{unchanged_but_storage, Runtime};

verus! {

/// The bytes that `encode` writes for a node. Children are not written:
/// each node is stored on its own.
pub open spec fn node_bytes(m: NodeModel) -> Seq<u8> {
    varbytes(m.keys) + varbytes(m.children_bytes) + varbytes(m.prefix)
        + spec_u32_to_le_bytes(m.prefix_len) + spec_u32_to_le_bytes(m.size) + varbytes(m.key)
        + spec_u64_to_le_bytes(m.key_size) + varbytes(m.value) + seq![m.node_type]
}

/// A node as `decode` rebuilds it from its fields: no children, and nothing
/// to flush.
pub open spec fn decoded_node(
    keys: Seq<u8>,
    children_bytes: Seq<u8>,
    prefix: Seq<u8>,
    prefix_len: u32,
    size: u32,
    key: Seq<u8>,
    key_size: u64,
    value: Seq<u8>,
    node_type: u8,
) -> NodeModel {
    NodeModel {
        keys,
        children: Seq::empty(),
        children_bytes,
        prefix,
        prefix_len,
        size,
        need_flush: false,
        key,
        key_size,
        value,
        node_type,
    }
}

/// Reads a node written by `encode`.
pub open spec fn parse_node(s: Seq<u8>) -> Parsed<NodeModel> {
    match parse_varbytes(s) { Err(e) => Err(e), Ok((keys, s1)) =>
    match parse_varbytes(s1) { Err(e) => Err(e), Ok((children_bytes, s2)) =>
    match parse_varbytes(s2) { Err(e) => Err(e), Ok((prefix, s3)) =>
    match parse_u32(s3) { Err(e) => Err(e), Ok((prefix_len, s4)) =>
    match parse_u32(s4) { Err(e) => Err(e), Ok((size, s5)) =>
    match parse_varbytes(s5) { Err(e) => Err(e), Ok((key, s6)) =>
    match parse_u64(s6) { Err(e) => Err(e), Ok((key_size, s7)) =>
    match parse_varbytes(s7) { Err(e) => Err(e), Ok((value, s8)) =>
    match parse_byte(s8) { Err(e) => Err(e), Ok((node_type, s9)) =>
        Ok((decoded_node(keys, children_bytes, prefix, prefix_len, size, key, key_size, value, node_type), s9))
    }}}}}}}}}
}

/// The storage writes that flushing a node makes, in order: those of its
/// children, first to last, then, if it is marked for flushing, its own
/// encoding under its key.
pub open spec fn flush_writes(m: NodeModel) -> Seq<(Seq<u8>, Seq<u8>)>
    decreases m, m.children.len() + 1,
{
    children_writes(m, m.children.len()) + if m.need_flush {
        seq![(m.key, varbytes(node_bytes(m)))]
    } else {
        Seq::empty()
    }
}

/// The storage writes of flushing the first `k` children of `m`.
pub open spec fn children_writes(m: NodeModel, k: nat) -> Seq<(Seq<u8>, Seq<u8>)>
    decreases m, k,
{
    if k == 0 || k > m.children.len() {
        Seq::empty()
    } else {
        children_writes(m, (k - 1) as nat) + flush_writes(m.children[k - 1])
    }
}

/// A storage after the writes `ws`, in order.
pub open spec fn apply_writes(st: Map<Seq<u8>, Seq<u8>>, ws: Seq<(Seq<u8>, Seq<u8>)>) -> Map<Seq<u8>, Seq<u8>>
    decreases ws.len(),
{
    if ws.len() == 0 {
        st
    } else {
        apply_writes(st, ws.drop_last()).insert(ws.last().0, ws.last().1)
    }
}

pub proof fn lemma_apply_writes_append(st: Map<Seq<u8>, Seq<u8>>, a: Seq<(Seq<u8>, Seq<u8>)>, b: Seq<(Seq<u8>, Seq<u8>)>)
    ensures
        apply_writes(st, a + b) == apply_writes(apply_writes(st, a), b),
    decreases b.len(),
{
    if b.len() == 0 {
        assert(a + b =~= a);
    } else {
        assert((a + b).drop_last() =~= a + b.drop_last());
        lemma_apply_writes_append(st, a, b.drop_last());
    }
}

pub proof fn lemma_apply_one(st: Map<Seq<u8>, Seq<u8>>, k: Seq<u8>, v: Seq<u8>)
    ensures
        apply_writes(st, seq![(k, v)]) == st.insert(k, v),
{
    let ws = seq![(k, v)];
    assert(ws.drop_last() =~= Seq::<(Seq<u8>, Seq<u8>)>::empty());
    assert(apply_writes(st, ws.drop_last()) == st);
}

impl Node {
    /// Writes the node's own fields (not its children).
    pub fn encode(&self, sink: &mut Sink)
        ensures
            final(sink)@ == old(sink)@ + node_bytes(self@),
    {
        let ghost s0 = sink@;
        sink.write_varbytes(self.keys.as_slice());
        sink.write_varbytes(self.children_bytes.as_slice());
        sink.write_varbytes(self.prefix.as_slice());
        sink.write_u32(self.prefix_len);
        sink.write_u32(self.size);
        sink.write_varbytes(self.key.as_slice());
        sink.write_u64(self.key_size);
        sink.write_varbytes(self.value.as_slice());
        sink.write_byte(self.node_type);
        assert(sink@ =~= s0 + node_bytes(self@));
    }

    /// Reads a node written by `encode`; the node has no children and is not
    /// marked for flushing.
    pub fn decode(source: &mut Source) -> (r: Result<Node, Error>)
        requires
            parse_node(old(source)@) is Ok,
        ensures
            r matches Ok(n) && n@ == parse_node(old(source)@)->Ok_0.0,
            final(source)@ == parse_node(old(source)@)->Ok_0.1,
    {
        let keys = expect_bytes(source.read_varbytes());
        let children_bytes = expect_bytes(source.read_varbytes());
        let prefix = expect_bytes(source.read_varbytes());
        let prefix_len = expect_u32(source.read_u32());
        let size = expect_u32(source.read_u32());
        let key = expect_bytes(source.read_varbytes());
        let key_size = expect_u64(source.read_u64());
        let value = expect_bytes(source.read_varbytes());
        let node_type = expect_u8(source.read_byte());
        let n = Node {
            keys,
            children: Vec::new(),
            children_bytes,
            prefix,
            prefix_len,
            size,
            need_flush: false,
            key,
            key_size,
            value,
            node_type,
        };
        proof {
            lemma_model_children(n);
            assert(n@.children =~= Seq::<NodeModel>::empty());
        }
        Ok(n)
    }

    fn flush_ref(&self, rt: &mut Runtime)
        ensures
            final(rt).storage@ == apply_writes(old(rt).storage@, flush_writes(self@)),
            unchanged_but_storage(*old(rt), *final(rt)),
        decreases self,
    {
        proof {
            lemma_model_children(*self);
        }
        let ghost st0 = rt.storage@;
        let mut i: usize = 0;
        while i < self.children.len()
            invariant
                i <= self.children@.len(),
                self@.children == crate::database::node::models(self.children@),
                rt.storage@ == apply_writes(st0, children_writes(self@, i as nat)),
                unchanged_but_storage(*old(rt), *rt),
            decreases self.children@.len() - i,
        {
            proof {
                assert(decreases_to!(self.children => self.children@[i as int]));
                lemma_apply_writes_append(st0, children_writes(self@, i as nat), flush_writes(self@.children[i as int]));
            }
            self.children[i].flush_ref(rt);
            i += 1;
        }
        let ghost cw = children_writes(self@, self@.children.len());
        assert(rt.storage@ == apply_writes(st0, cw));
        assert(self@.need_flush == self.need_flush);
        if self.need_flush {
            let mut sink = Sink::new(16);
            self.encode(&mut sink);
            put(rt, self.key.as_slice(), sink.bytes());
            proof {
                let ws = seq![(self@.key, varbytes(node_bytes(self@)))];
                lemma_apply_writes_append(st0, children_writes(self@, self@.children.len()), ws);
                lemma_apply_one(apply_writes(st0, cw), self@.key, varbytes(node_bytes(self@)));
                assert(self@.key == self.key@);
                assert(flush_writes(self@) == cw + ws);
                assert(apply_writes(st0, cw + ws) == apply_writes(st0, cw).insert(self@.key, varbytes(node_bytes(self@))));
            }
        } else {
            assert(flush_writes(self@) =~= cw);
        }
    }

    /// Writes every node of the subtree that is marked for flushing to the
    /// storage, under its key (see `flush_writes`).
    pub fn flush(&mut self, rt: &mut Runtime)
        ensures
            *final(self) == *old(self),
            final(rt).storage@ == apply_writes(old(rt).storage@, flush_writes(old(self)@)),
            unchanged_but_storage(*old(rt), *final(rt)),
            forall|p: Seq<int>| (#[trigger] node_at(old(self)@, p) matches Some(n) && n.need_flush)
                ==> final(rt).storage@.contains_key(node_at(old(self)@, p)->0.key),
    {
        let ghost st0 = rt.storage@;
        self.flush_ref(rt);
        proof {
            assert forall|p: Seq<int>| (#[trigger] node_at(self@, p) matches Some(n) && n.need_flush)
                implies rt.storage@.contains_key(node_at(self@, p)->0.key) by {
                lemma_flush_writes_path(self@, p);
                lemma_apply_writes_key(st0, flush_writes(self@), node_at(self@, p)->0.key);
            }
        }
    }
}

/// The bytes that `NodeTree::encode` writes: the tree's key, its size, and
/// the root's own fields when there is a root.
pub open spec fn tree_bytes(t: TreeModel) -> Seq<u8> {
    varbytes(t.key) + spec_u64_to_le_bytes(t.size) + match t.root {
        Some(r) => node_bytes(r),
        None => Seq::empty(),
    }
}

/// The node reached from `m` by following the child positions of `path`.
pub open spec fn node_at(m: NodeModel, path: Seq<int>) -> Option<NodeModel>
    decreases path.len(),
{
    if path.len() == 0 {
        Some(m)
    } else if 0 <= path[0] < m.children.len() {
        node_at(m.children[path[0]], path.drop_first())
    } else {
        None
    }
}

/// Whether some write of `ws` is under `key`.
pub open spec fn writes_key(ws: Seq<(Seq<u8>, Seq<u8>)>, key: Seq<u8>) -> bool {
    exists|i: int| 0 <= i < ws.len() && (#[trigger] ws[i]).0 == key
}

proof fn lemma_apply_writes_key(st: Map<Seq<u8>, Seq<u8>>, ws: Seq<(Seq<u8>, Seq<u8>)>, key: Seq<u8>)
    requires
        writes_key(ws, key),
    ensures
        apply_writes(st, ws).contains_key(key),
    decreases ws.len(),
{
    let i = choose|i: int| 0 <= i < ws.len() && (#[trigger] ws[i]).0 == key;
    if i < ws.len() - 1 {
        assert(ws.drop_last()[i] == ws[i]);
        lemma_apply_writes_key(st, ws.drop_last(), key);
    }
}

proof fn lemma_children_writes_key(m: NodeModel, j: int, k: nat, key: Seq<u8>)
    requires
        0 <= j < k <= m.children.len(),
        writes_key(flush_writes(m.children[j]), key),
    ensures
        writes_key(children_writes(m, k), key),
    decreases k,
{
    let a = children_writes(m, (k - 1) as nat);
    let b = flush_writes(m.children[k - 1]);
    assert(children_writes(m, k) == a + b);
    if j == k - 1 {
        let i = choose|i: int| 0 <= i < b.len() && (#[trigger] b[i]).0 == key;
        assert((a + b)[a.len() + i] == b[i]);
    } else {
        lemma_children_writes_key(m, j, (k - 1) as nat, key);
        let i = choose|i: int| 0 <= i < a.len() && (#[trigger] a[i]).0 == key;
        assert((a + b)[i] == a[i]);
    }
}

proof fn lemma_flush_writes_path(m: NodeModel, path: Seq<int>)
    requires
        node_at(m, path) matches Some(n) && n.need_flush,
    ensures
        writes_key(flush_writes(m), node_at(m, path)->0.key),
    decreases path.len(),
{
    let key = node_at(m, path)->0.key;
    let cw = children_writes(m, m.children.len());
    let own: Seq<(Seq<u8>, Seq<u8>)> = if m.need_flush { seq![(m.key, varbytes(node_bytes(m)))] } else { Seq::empty() };
    assert(flush_writes(m) == cw + own);
    if path.len() == 0 {
        assert((cw + own)[cw.len() as int] == own[0]);
    } else {
        let j = path[0];
        lemma_flush_writes_path(m.children[j], path.drop_first());
        lemma_children_writes_key(m, j, m.children.len(), key);
        let i = choose|i: int| 0 <= i < cw.len() && (#[trigger] cw[i]).0 == key;
        assert((cw + own)[i] == cw[i]);
    }
}

/// After `NodeTree::flush`, every node below the root, at any depth, that
/// is marked for flushing is in the storage under its key, and so is the
/// tree under its own key.
pub proof fn law_flush_stores_marked_nodes(st: Map<Seq<u8>, Seq<u8>>, t: TreeModel, path: Seq<int>)
    requires
        t.root is Some,
        path.len() >= 1,
        node_at(t.root->0, path) matches Some(n) && n.need_flush,
    ensures
        apply_writes(st, tree_flush_writes(t)).contains_key(node_at(t.root->0, path)->0.key),
        apply_writes(st, tree_flush_writes(t)).contains_key(t.key),
{
    let r = t.root->0;
    let key = node_at(r, path)->0.key;
    let j = path[0];
    lemma_flush_writes_path(r.children[j], path.drop_first());
    lemma_children_writes_key(r, j, r.children.len(), key);
    let cw = children_writes(r, r.children.len());
    let ws = tree_flush_writes(t);
    let i = choose|i: int| 0 <= i < cw.len() && (#[trigger] cw[i]).0 == key;
    assert(ws[i] == cw[i]);
    lemma_apply_writes_key(st, ws, key);
    assert(ws[cw.len() as int].0 == t.key);
    lemma_apply_writes_key(st, ws, t.key);
}

/// Reads a tree written by `NodeTree::encode` (with a root).
pub open spec fn parse_tree(s: Seq<u8>) -> Parsed<TreeModel> {
    match parse_varbytes(s) { Err(e) => Err(e), Ok((key, s1)) =>
    match parse_u64(s1) { Err(e) => Err(e), Ok((size, s2)) =>
    match parse_node(s2) { Err(e) => Err(e), Ok((root, s3)) =>
        Ok((TreeModel { root: Some(root), size, key }, s3))
    }}}
}

/// The storage writes of `NodeTree::flush`: for a tree with a root, the
/// flushes of the root's children, then the tree's encoding under its key.
pub open spec fn tree_flush_writes(t: TreeModel) -> Seq<(Seq<u8>, Seq<u8>)> {
    match t.root {
        Some(r) => children_writes(r, r.children.len()) + seq![(t.key, varbytes(tree_bytes(t)))],
        None => Seq::empty(),
    }
}

/// What `open(key)` reads from the value stored under `key`.
pub open spec fn open_model(stored: Seq<u8>) -> Result<TreeModel, Error> {
    match parse_varbytes(stored) {
        Err(e) => Err(e),
        Ok((bytes, _)) => Ok(parse_tree(bytes)->Ok_0.0),
    }
}

/// `open(key)` does not panic on the value stored under `key`.
pub open spec fn open_ok(stored: Seq<u8>) -> bool {
    parse_varbytes(stored) matches Ok((bytes, _)) ==> parse_tree(bytes) is Ok
}

/// A node as `decode` gives it back: without its children, and not marked
/// for flushing.
pub open spec fn stored_form(m: NodeModel) -> NodeModel {
    NodeModel { children: Seq::empty(), need_flush: false, ..m }
}

/// Every byte string of the node can have its length written.
pub open spec fn node_fits(m: NodeModel) -> bool {
    &&& m.keys.len() <= u64::MAX
    &&& m.children_bytes.len() <= u64::MAX
    &&& m.prefix.len() <= u64::MAX
    &&& m.key.len() <= u64::MAX
    &&& m.value.len() <= u64::MAX
}

/// Decoding what `encode` wrote gives back the node's own fields, and
/// leaves what follows.
#[verifier::spinoff_prover]
#[verifier::rlimit(60)]
pub proof fn law_node_decode_encode(m: NodeModel, rest: Seq<u8>)
    requires
        node_fits(m),
    ensures
        parse_node(node_bytes(m) + rest) == Ok::<(NodeModel, Seq<u8>), Error>((stored_form(m), rest)),
{
    let r8 = seq![m.node_type] + rest;
    let r7 = varbytes(m.value) + r8;
    let r6 = spec_u64_to_le_bytes(m.key_size) + r7;
    let r5 = varbytes(m.key) + r6;
    let r4 = spec_u32_to_le_bytes(m.size) + r5;
    let r3 = spec_u32_to_le_bytes(m.prefix_len) + r4;
    let r2 = varbytes(m.prefix) + r3;
    let r1 = varbytes(m.children_bytes) + r2;
    let r0 = varbytes(m.keys) + r1;
    assert(node_bytes(m) + rest =~= r0);
    lemma_parse_varbytes(m.keys, r1);
    lemma_parse_varbytes(m.children_bytes, r2);
    lemma_parse_varbytes(m.prefix, r3);
    lemma_parse_u32(m.prefix_len, r4);
    lemma_parse_u32(m.size, r5);
    lemma_parse_varbytes(m.key, r6);
    lemma_parse_u64(m.key_size, r7);
    lemma_parse_varbytes(m.value, r8);
    lemma_parse_byte(m.node_type, rest);
    assert(stored_form(m) == decoded_node(m.keys, m.children_bytes, m.prefix, m.prefix_len, m.size, m.key, m.key_size, m.value, m.node_type));
}

/// Decoding what `NodeTree::encode` wrote for a tree with a root gives back
/// its key, its size and the root's own fields.
pub proof fn law_tree_decode_encode(t: TreeModel, rest: Seq<u8>)
    requires
        t.root is Some,
        node_fits(t.root->0),
        t.key.len() <= u64::MAX,
    ensures
        parse_tree(tree_bytes(t) + rest) == Ok::<(TreeModel, Seq<u8>), Error>((
            TreeModel { root: Some(stored_form(t.root->0)), size: t.size, key: t.key },
            rest,
        )),
{
    let r = t.root->0;
    let r2 = node_bytes(r) + rest;
    let r1 = spec_u64_to_le_bytes(t.size) + r2;
    assert(tree_bytes(t) + rest =~= varbytes(t.key) + r1);
    lemma_parse_varbytes(t.key, r1);
    lemma_parse_u64(t.size, r2);
    law_node_decode_encode(r, rest);
}

/// A tree written to the storage by `NodeTree::flush` is read back by
/// `open` under its key: the same key and size, and the root's own fields
/// (children are stored apart, each under its own key).
pub proof fn law_open_after_flush(st: Map<Seq<u8>, Seq<u8>>, t: TreeModel)
    requires
        t.root is Some,
        node_fits(t.root->0),
        t.key.len() <= u64::MAX,
        tree_bytes(t).len() <= u64::MAX,
    ensures
        apply_writes(st, tree_flush_writes(t)).contains_key(t.key),
        open_ok(apply_writes(st, tree_flush_writes(t))[t.key]),
        open_model(apply_writes(st, tree_flush_writes(t))[t.key])
            == Ok::<TreeModel, Error>(TreeModel { root: Some(stored_form(t.root->0)), size: t.size, key: t.key }),
{
    let r = t.root->0;
    let cw = children_writes(r, r.children.len());
    let v = varbytes(tree_bytes(t));
    lemma_apply_writes_append(st, cw, seq![(t.key, v)]);
    lemma_apply_one(apply_writes(st, cw), t.key, v);
    lemma_parse_varbytes(tree_bytes(t), Seq::empty());
    assert(v + Seq::<u8>::empty() =~= v);
    law_tree_decode_encode(t, Seq::empty());
    assert(tree_bytes(t) + Seq::<u8>::empty() =~= tree_bytes(t));
}

impl NodeTree {
    pub fn encode(&self, sink: &mut Sink)
        ensures
            final(sink)@ == old(sink)@ + tree_bytes(self@),
    {
        let ghost s0 = sink@;
        sink.write_varbytes(self.key.as_slice());
        sink.write_u64(self.size);
        match &self.root {
            Some(root) => {
                root.encode(sink);
                assert(sink@ =~= s0 + tree_bytes(self@));
            },
            None => {
                assert(sink@ =~= s0 + tree_bytes(self@));
            },
        }
    }

    /// Reads a tree written by `encode`; its root has no children.
    pub fn decode(source: &mut Source) -> (r: Result<NodeTree, Error>)
        requires
            parse_tree(old(source)@) is Ok,
        ensures
            r matches Ok(t) && t@ == parse_tree(old(source)@)->Ok_0.0,
            final(source)@ == parse_tree(old(source)@)->Ok_0.1,
    {
        let key = expect_bytes(source.read_varbytes());
        let size = expect_u64(source.read_u64());
        let root = match Node::decode(source) {
            Ok(n) => n,
            Err(_) => crate::database::node::new_node(0),
        };
        Ok(NodeTree { root: Some(root), size, key })
    }

    /// Writes the tree to the storage: every marked node below the root, and
    /// the tree itself under its key (see `tree_flush_writes`). A tree without
    /// a root writes nothing.
    pub fn flush(&mut self, rt: &mut Runtime)
        ensures
            final(self)@ == old(self)@,
            final(rt).storage@ == apply_writes(old(rt).storage@, tree_flush_writes(old(self)@)),
            unchanged_but_storage(*old(rt), *final(rt)),
            old(self)@.root is Some ==> final(rt).storage@.contains_key(old(self)@.key),
            forall|p: Seq<int>|
                old(self)@.root is Some && p.len() >= 1 && (#[trigger] node_at(old(self)@.root->0, p) matches Some(n) && n.need_flush)
                    ==> final(rt).storage@.contains_key(node_at(old(self)@.root->0, p)->0.key),
    {
        let ghost st0 = rt.storage@;
        let ghost t0 = self@;
        self.flush_tree_writes(rt);
        proof {
            if t0.root is Some {
                assert forall|p: Seq<int>|
                    t0.root is Some && p.len() >= 1 && (#[trigger] node_at(t0.root->0, p) matches Some(n) && n.need_flush)
                        implies rt.storage@.contains_key(node_at(t0.root->0, p)->0.key) by {
                    law_flush_stores_marked_nodes(st0, t0, p);
                }
                assert(rt.storage@.contains_key(t0.key)) by {
                    let ws = tree_flush_writes(t0);
                    let r = t0.root->0;
                    let cw = children_writes(r, r.children.len());
                    assert(ws[cw.len() as int].0 == t0.key);
                    lemma_apply_writes_key(st0, ws, t0.key);
                }
            }
        }
    }

    fn flush_tree_writes(&mut self, rt: &mut Runtime)
        ensures
            final(self)@ == old(self)@,
            final(rt).storage@ == apply_writes(old(rt).storage@, tree_flush_writes(old(self)@)),
            unchanged_but_storage(*old(rt), *final(rt)),
    {
        let ghost st0 = rt.storage@;
        match &self.root {
            Some(root) => {
                proof {
                    lemma_model_children(*root);
                }
                let mut i: usize = 0;
                while i < root.children.len()
                    invariant
                        i <= root.children@.len(),
                        root@.children == crate::database::node::models(root.children@),
                        rt.storage@ == apply_writes(st0, children_writes(root@, i as nat)),
                        unchanged_but_storage(*old(rt), *rt),
                    decreases root.children@.len() - i,
                {
                    proof {
                        lemma_apply_writes_append(st0, children_writes(root@, i as nat), flush_writes(root@.children[i as int]));
                    }
                    root.children[i].flush_ref(rt);
                    i += 1;
                }
                let mut sink = Sink::new(16);
                self.encode(&mut sink);
                put(rt, self.key.as_slice(), sink.bytes());
                proof {
                    let cw = children_writes(root@, root@.children.len());
                    let ws = seq![(self@.key, varbytes(tree_bytes(self@)))];
                    lemma_apply_writes_append(st0, cw, ws);
                    lemma_apply_one(apply_writes(st0, cw), self@.key, varbytes(tree_bytes(self@)));
                }
            },
            None => {},
        }
    }
}

/// The tree stored under `key`, or a new empty one if nothing is stored
/// there.
pub fn open(rt: &Runtime, key: Vec<u8>) -> (r: Result<NodeTree, Error>)
    requires
        rt.storage@.contains_key(key@) ==> open_ok(rt.storage@[key@]),
    ensures
        !rt.storage@.contains_key(key@) ==> (r matches Ok(t) && t@ == (TreeModel { root: None, size: 0, key: key@ })),
        rt.storage@.contains_key(key@) ==> match (r, open_model(rt.storage@[key@])) {
            (Ok(t), Ok(m)) => t@ == m,
            (Err(e1), Err(e2)) => e1 == e2,
            _ => false,
        },
{
    match get(rt, key.as_slice()) {
        Some(Ok(t)) => {
            let mut source = Source::new(t);
            NodeTree::decode(&mut source)
        },
        Some(Err(e)) => Err(e),
        None => Ok(new_tree(key)),
    }
}

/// Whether a value stored under a tree's key can be opened: `open` needs
/// it (see `open_ok`).
pub fn stored_tree_ok(stored: &[u8]) -> (r: bool)
    ensures
        r == open_ok(stored@),
{
    let mut outer = Source::new(slice_to_vec(stored));
    let bytes = match outer.read_varbytes() {
        Ok(b) => b,
        Err(_) => {
            return true;
        },
    };
    let mut s = Source::new(bytes);
    if s.read_varbytes().is_err() || s.read_u64().is_err() {
        return false;
    }
    if s.read_varbytes().is_err() || s.read_varbytes().is_err() || s.read_varbytes().is_err() {
        return false;
    }
    if s.read_u32().is_err() || s.read_u32().is_err() || s.read_varbytes().is_err() {
        return false;
    }
    if s.read_u64().is_err() || s.read_varbytes().is_err() || s.read_byte().is_err() {
        return false;
    }
    true
}

fn expect_bytes(r: Result<Vec<u8>, Error>) -> (v: Vec<u8>)
    requires
        r is Ok,
    ensures
        r == Ok::<Vec<u8>, Error>(v),
{
    match r {
        Ok(v) => v,
        Err(_) => Vec::new(),
    }
}

fn expect_u32(r: Result<u32, Error>) -> (v: u32)
    requires
        r is Ok,
    ensures
        r == Ok::<u32, Error>(v),
{
    match r {
        Ok(v) => v,
        Err(_) => 0,
    }
}

fn expect_u64(r: Result<u64, Error>) -> (v: u64)
    requires
        r is Ok,
    ensures
        r == Ok::<u64, Error>(v),
{
    match r {
        Ok(v) => v,
        Err(_) => 0,
    }
}

fn expect_u8(r: Result<u8, Error>) -> (v: u8)
    requires
        r is Ok,
    ensures
        r == Ok::<u8, Error>(v),
{
    match r {
        Ok(v) => v,
        Err(_) => 0,
    }
}

} // verus!
