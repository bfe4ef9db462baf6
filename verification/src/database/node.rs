use vstd::prelude::*;

verus! {

pub const NODE4: u8 = 0;
pub const NODE16: u8 = 1;
pub const NODE48: u8 = 2;
pub const NODE256: u8 = 3;
pub const LEAF: u8 = 4;

pub const NODE4MIN: u32 = 2;
pub const NODE4MAX: u32 = 4;
pub const NODE16MIN: u32 = 5;
pub const NODE16MAX: u32 = 16;
pub const NODE48MIN: u32 = 17;
pub const NODE48MAX: u32 = 48;
pub const NODE256MIN: u32 = 49;
pub const NODE256MAX: u32 = 256;

pub const MAX_PREFIX_LEN: u32 = 10;

/// The mathematical value of a [`Node`]: every byte vector becomes a sequence,
/// and every child becomes the model of that child.
#[verifier::ext_equal]
pub struct NodeModel {
    pub keys: Seq<u8>,
    pub children: Seq<NodeModel>,
    pub children_bytes: Seq<u8>,
    pub prefix: Seq<u8>,
    pub prefix_len: u32,
    pub size: u32,
    pub need_flush: bool,
    pub key: Seq<u8>,
    pub key_size: u64,
    pub value: Seq<u8>,
    pub node_type: u8,
}

/// A node of an adaptive radix tree: an inner node (`NODE4` .. `NODE256`)
/// with sorted or indexed child keys and a compressed path prefix, or a
/// `LEAF` that holds a full key and its value.
pub struct Node {
    pub keys: Vec<u8>,
    pub children: Vec<Node>,
    pub children_bytes: Vec<u8>,
    pub prefix: Vec<u8>,
    pub prefix_len: u32,
    pub size: u32,
    pub need_flush: bool,
    pub key: Vec<u8>,
    pub key_size: u64,
    pub value: Vec<u8>,
    pub node_type: u8,
}

/// Models of the first `k` nodes of `c`.
pub open spec fn children_models(c: Vec<Node>, k: nat) -> Seq<NodeModel>
    decreases c, k,
{
    if k == 0 || k > c@.len() {
        Seq::empty()
    } else {
        children_models(c, (k - 1) as nat).push(node_model(c[k - 1]))
    }
}

pub open spec fn node_model(n: Node) -> NodeModel
    decreases n, n.children@.len() + 1,
{
    NodeModel {
        keys: n.keys@,
        children: children_models(n.children, n.children@.len()),
        children_bytes: n.children_bytes@,
        prefix: n.prefix@,
        prefix_len: n.prefix_len,
        size: n.size,
        need_flush: n.need_flush,
        key: n.key@,
        key_size: n.key_size,
        value: n.value@,
        node_type: n.node_type,
    }
}

/// The models of a vector of nodes, in order.
pub open spec fn models(c: Seq<Node>) -> Seq<NodeModel> {
    c.map_values(|x: Node| x@)
}

pub proof fn lemma_children_models(c: Vec<Node>, k: nat)
    requires
        k <= c@.len(),
    ensures
        children_models(c, k) =~= models(c@.take(k as int)),
    decreases k,
{
    if k > 0 {
        lemma_children_models(c, (k - 1) as nat);
        assert(c@.take(k as int) =~= c@.take(k - 1).push(c@[k - 1]));
    }
}

pub proof fn lemma_model_children(n: Node)
    ensures
        n@.children =~= models(n.children@),
{
    lemma_children_models(n.children, n.children@.len());
    assert(n.children@.take(n.children@.len() as int) =~= n.children@);
}

impl View for Node {
    type V = NodeModel;

    open spec fn view(&self) -> NodeModel {
        node_model(*self)
    }
}


// ---------------------------------------------------------------------------
// Byte-sequence helpers
// ---------------------------------------------------------------------------

/// `s.get(i)`: the byte at `i`, if there is one.
pub open spec fn byte_at(s: Seq<u8>, i: int) -> Option<u8> {
    if 0 <= i < s.len() {
        Some(s[i])
    } else {
        None
    }
}

/// `s.get(i).unwrap_or(0)`.
pub open spec fn byte_or_zero(s: Seq<u8>, i: int) -> u8 {
    if 0 <= i < s.len() {
        s[i]
    } else {
        0
    }
}

/// Number of positions, starting at `from` and at most `n` of them, on which
/// `a` and `b` agree, counted up to the first disagreement.
pub open spec fn agree_len(a: Seq<u8>, b: Seq<u8>, from: int, n: nat) -> nat
    decreases n,
{
    if n == 0 || byte_at(a, from) != byte_at(b, from) {
        0
    } else {
        1 + agree_len(a, b, from + 1, (n - 1) as nat)
    }
}

/// The first `i` in `start .. end` where `a` at `oa + i` and `b` at `ob + i`
/// differ (a missing byte differs from a present one), or `end` if none does.
pub open spec fn first_diff(a: Seq<u8>, oa: int, b: Seq<u8>, ob: int, start: nat, end: nat) -> nat
    decreases end - start,
{
    if start >= end {
        start
    } else if byte_at(a, oa + start) != byte_at(b, ob + start) {
        start
    } else {
        first_diff(a, oa, b, ob, start + 1, end)
    }
}

/// The first position `j >= from` with `key < keys[j]`, or `keys.len()`.
pub open spec fn position_gt(keys: Seq<u8>, key: u8, from: nat) -> nat
    decreases keys.len() - from,
{
    if from >= keys.len() {
        keys.len()
    } else if key < keys[from as int] {
        from
    } else {
        position_gt(keys, key, from + 1)
    }
}

/// The first position `j >= from` with `keys[j] >= key`, or `keys.len()`.
pub open spec fn position_ge(keys: Seq<u8>, key: u8, from: nat) -> nat
    decreases keys.len() - from,
{
    if from >= keys.len() {
        keys.len()
    } else if keys[from as int] >= key {
        from
    } else {
        position_ge(keys, key, from + 1)
    }
}

/// The first position `j >= from` with `keys[j] == key`, if there is one.
pub open spec fn position_eq(keys: Seq<u8>, key: u8, from: nat) -> Option<nat>
    decreases keys.len() - from,
{
    if from >= keys.len() {
        None
    } else if keys[from as int] == key {
        Some(from)
    } else {
        position_eq(keys, key, from + 1)
    }
}

/// The first position `j >= from` with `keys[j] != 0`, or `keys.len()`.
pub open spec fn position_nonzero(keys: Seq<u8>, from: nat) -> nat
    decreases keys.len() - from,
{
    if from >= keys.len() {
        keys.len()
    } else if keys[from as int] != 0 {
        from
    } else {
        position_nonzero(keys, from + 1)
    }
}

pub(crate) fn copy_bytes(v: &Vec<u8>) -> (r: Vec<u8>)
    ensures
        r@ == v@,
{
    let r = v.clone();
    assert(r@ =~= v@);
    r
}

fn same_byte(a: &Vec<u8>, i: usize, b: &Vec<u8>, j: usize) -> (r: bool)
    ensures
        r == (byte_at(a@, i as int) == byte_at(b@, j as int)),
{
    if i < a.len() {
        if j < b.len() {
            a[i] == b[j]
        } else {
            false
        }
    } else {
        !(j < b.len())
    }
}

fn bytes_eq(a: &Vec<u8>, b: &Vec<u8>) -> (r: bool)
    ensures
        r == (a@ == b@),
{
    if a.len() != b.len() {
        return false;
    }
    let mut i: usize = 0;
    while i < a.len()
        invariant
            i <= a.len(),
            a.len() == b.len(),
            forall|j: int| 0 <= j < i ==> a@[j] == b@[j],
        decreases a.len() - i,
    {
        if a[i] != b[i] {
            return false;
        }
        i += 1;
    }
    assert(a@ =~= b@);
    true
}

// ---------------------------------------------------------------------------
// Models of the node operations
// ---------------------------------------------------------------------------

pub open spec fn max_size_of(node_type: u8) -> u32 {
    if node_type == NODE4 {
        NODE4MAX
    } else if node_type == NODE16 {
        NODE16MAX
    } else if node_type == NODE48 {
        NODE48MAX
    } else if node_type == NODE256 {
        NODE256MAX
    } else {
        0
    }
}

/// The node type that `grow` turns `node_type` into.
pub open spec fn grown_type(node_type: u8) -> u8 {
    if node_type == NODE4 {
        NODE16
    } else if node_type == NODE16 {
        NODE48
    } else if node_type == NODE48 {
        NODE256
    } else {
        node_type
    }
}

/// A node fresh from `new_node(node_type)`.
pub open spec fn empty_model(node_type: u8) -> NodeModel {
    NodeModel {
        keys: Seq::empty(),
        children: Seq::empty(),
        children_bytes: Seq::empty(),
        prefix: Seq::empty(),
        prefix_len: 0,
        size: 0,
        need_flush: true,
        key: Seq::empty(),
        key_size: 0,
        value: Seq::empty(),
        node_type,
    }
}

/// How many bytes `memcpy(src, num_bytes)` copies.
pub open spec fn memcpy_count(src: Seq<u8>, num_bytes: u32) -> nat {
    let l = (src.len() as u32) as nat;
    if (num_bytes as nat) < l {
        num_bytes as nat
    } else {
        l
    }
}

/// The prefix after `memcpy(src, num_bytes)`: the copied bytes are inserted
/// in front of the old prefix.
pub open spec fn memcpy_prefix(prefix: Seq<u8>, src: Seq<u8>, num_bytes: u32) -> Seq<u8> {
    src.take(memcpy_count(src, num_bytes) as int) + prefix
}

/// The prefix after `memmove(src, num_bytes)`: its first `num_bytes` bytes
/// are overwritten by those of `src`.
pub open spec fn memmove_prefix(prefix: Seq<u8>, src: Seq<u8>, num_bytes: u32) -> Seq<u8> {
    src.take(num_bytes as int) + prefix.skip(num_bytes as int)
}

/// The slot of `children` that `find_child(key)` looks at, if any.
pub open spec fn child_slot(m: NodeModel, key: u8) -> Option<int> {
    if m.node_type == NODE4 || m.node_type == NODE16 {
        match position_eq(m.keys, key, 0) {
            Some(j) => Some(j as int),
            None => None,
        }
    } else if m.node_type == NODE48 {
        if m.keys[key as int] > 0 {
            Some(m.keys[key as int] - 1)
        } else {
            None
        }
    } else if m.node_type == NODE256 {
        Some(key as int)
    } else {
        None
    }
}

/// What `index(key)` returns.
pub open spec fn index_of(m: NodeModel, key: u8) -> i32 {
    match child_slot(m, key) {
        Some(j) => j as i32,
        None => -1i32,
    }
}

/// `index(key)` does not panic.
pub open spec fn index_ok(m: NodeModel, key: u8) -> bool {
    m.node_type == NODE48 ==> (key as int) < m.keys.len()
}

/// The child that `find_child(key)` returns, as an index into `children`.
pub open spec fn found_slot(m: NodeModel, key: u8) -> Option<int> {
    let j = index_of(m, key) as int;
    if 0 <= j < m.children.len() {
        Some(j)
    } else {
        None
    }
}

pub open spec fn with_prefix(m: NodeModel, prefix: Seq<u8>) -> NodeModel {
    NodeModel { prefix, ..m }
}

pub open spec fn with_children(m: NodeModel, children: Seq<NodeModel>) -> NodeModel {
    NodeModel { children, ..m }
}

pub open spec fn with_prefix_len(m: NodeModel, prefix_len: u32) -> NodeModel {
    NodeModel { prefix_len, ..m }
}

pub open spec fn with_type(m: NodeModel, node_type: u8) -> NodeModel {
    NodeModel { node_type, ..m }
}

/// How far `longest_common_prefix(other, depth)` looks.
pub open spec fn lcp_limit(a: Seq<u8>, b: Seq<u8>, depth: u32) -> nat {
    let m = if a.len() < b.len() { a.len() } else { b.len() };
    (m - depth) as nat
}

pub proof fn lemma_position_eq(keys: Seq<u8>, key: u8, from: nat)
    ensures
        position_eq(keys, key, from) matches Some(j) ==> from <= j < keys.len() && keys[j as int] == key,
    decreases keys.len() - from,
{
    if from < keys.len() && keys[from as int] != key {
        lemma_position_eq(keys, key, from + 1);
    }
}

/// `minimum()` returns (it neither panics nor loops forever).
pub open spec fn minimum_ok(m: NodeModel) -> bool
    decreases m,
{
    if m.node_type == NODE4 || m.node_type == NODE16 {
        m.children.len() > 0
    } else if m.node_type == NODE48 {
        let i = position_nonzero(m.keys, 0);
        if i < m.keys.len() && 0 < m.keys[i as int] && m.keys[i as int] - 1 < m.children.len() {
            minimum_ok(m.children[m.keys[i as int] - 1])
        } else {
            false
        }
    } else if m.node_type == NODE256 {
        if m.children.len() > 0 {
            minimum_ok(m.children[0])
        } else {
            false
        }
    } else {
        true
    }
}

/// The node that `minimum()` returns: the node itself for a leaf (or an
/// unknown type), the first child of a `NODE4` or `NODE16`, and the minimum
/// of the first child (by key byte) of a `NODE48` or `NODE256`.
pub open spec fn minimum_model(m: NodeModel) -> NodeModel
    decreases m,
{
    if m.node_type == NODE4 || m.node_type == NODE16 {
        m.children[0]
    } else if m.node_type == NODE48 {
        let i = position_nonzero(m.keys, 0);
        if i < m.keys.len() && 0 < m.keys[i as int] && m.keys[i as int] - 1 < m.children.len() {
            minimum_model(m.children[m.keys[i as int] - 1])
        } else {
            m
        }
    } else if m.node_type == NODE256 {
        if m.children.len() > 0 {
            minimum_model(m.children[0])
        } else {
            m
        }
    } else {
        m
    }
}

/// `prefix_mis_match(key, depth)` does not panic (and its arithmetic on
/// `u32` positions stays in range).
pub open spec fn mismatch_ok(m: NodeModel, key: Seq<u8>, depth: u32) -> bool {
    &&& depth + m.prefix_len <= u32::MAX + 1
    &&& (m.prefix_len > MAX_PREFIX_LEN && first_diff(key, depth as int, m.prefix, 0, 0, long_scan(key))
        >= long_scan(key)) ==> minimum_ok(m)
}

/// How many leading bytes of the stored prefix a long prefix is checked on.
pub open spec fn long_scan(key: Seq<u8>) -> nat {
    if key.len() < MAX_PREFIX_LEN { key.len() } else { MAX_PREFIX_LEN as nat }
}

/// What `prefix_mis_match(key, depth)` returns: the first position at which
/// `key` (from `depth` on) leaves the compressed path of the node, or the
/// prefix length if it follows all of it. A prefix longer than the stored
/// bytes is checked, past them, against the key of the minimum leaf.
pub open spec fn mismatch_model(m: NodeModel, key: Seq<u8>, depth: u32) -> nat {
    if m.prefix_len > MAX_PREFIX_LEN {
        let n1 = long_scan(key);
        let f1 = first_diff(key, depth as int, m.prefix, 0, 0, n1);
        if f1 < n1 {
            f1
        } else {
            first_diff(key, depth as int, minimum_model(m).key, depth as int, n1, m.prefix_len as nat)
        }
    } else {
        first_diff(key, depth as int, m.prefix, 0, 0, m.prefix_len as nat)
    }
}

pub proof fn lemma_first_diff_bound(a: Seq<u8>, oa: int, b: Seq<u8>, ob: int, start: nat, end: nat)
    ensures
        start <= end ==> start <= first_diff(a, oa, b, ob, start, end) <= end,
        start > end ==> first_diff(a, oa, b, ob, start, end) == start,
    decreases end - start,
{
    if start < end && byte_at(a, oa + start) == byte_at(b, ob + start) {
        lemma_first_diff_bound(a, oa, b, ob, start + 1, end);
    }
}

/// `s` with `x` stored at `i`: written over the element there, or appended
/// when `i` is the length.
pub open spec fn put_at<T>(s: Seq<T>, i: int, x: T) -> Seq<T> {
    if i >= s.len() {
        s.insert(i, x)
    } else {
        s.update(i, x)
    }
}

/// The shifting loop of `add_child` on a `NODE4`: for `ind` from `ind`
/// down to `index + 1`, an entry whose left neighbour is greater than `key`
/// receives that neighbour's key and child.
pub open spec fn shift4(k: Seq<u8>, c: Seq<NodeModel>, key: u8, ind: nat, index: nat) -> (Seq<u8>, Seq<NodeModel>)
    decreases ind,
{
    if ind <= index {
        (k, c)
    } else {
        let i = ind as int;
        if byte_or_zero(k, i - 1) > key {
            shift4(k.update(i, k[i - 1]), put_at(c, i, c[i - 1]), key, (ind - 1) as nat, index)
        } else {
            shift4(k, c, key, (ind - 1) as nat, index)
        }
    }
}

/// The shifting loop of `add_child` on a `NODE4` stays in bounds.
pub open spec fn shift4_ok(k: Seq<u8>, c: Seq<NodeModel>, key: u8, ind: nat, index: nat) -> bool
    decreases ind,
{
    if ind <= index {
        true
    } else {
        let i = ind as int;
        if byte_or_zero(k, i - 1) > key {
            i < k.len() && i <= c.len() && shift4_ok(k.update(i, k[i - 1]), put_at(c, i, c[i - 1]), key, (ind - 1) as nat, index)
        } else {
            shift4_ok(k, c, key, (ind - 1) as nat, index)
        }
    }
}

/// The shifting loop of `add_child` on a `NODE16`; unlike `shift4`, it also
/// appends to `keys` where the position is past its end.
pub open spec fn shift16(k: Seq<u8>, c: Seq<NodeModel>, key: u8, ind: nat, index: nat) -> (Seq<u8>, Seq<NodeModel>)
    decreases ind,
{
    if ind <= index {
        (k, c)
    } else {
        let i = ind as int;
        if byte_or_zero(k, i - 1) > key {
            shift16(put_at(k, i, byte_or_zero(k, i - 1)), put_at(c, i, c[i - 1]), key, (ind - 1) as nat, index)
        } else {
            shift16(k, c, key, (ind - 1) as nat, index)
        }
    }
}

/// The shifting loop of `add_child` on a `NODE16` stays in bounds.
pub open spec fn shift16_ok(k: Seq<u8>, c: Seq<NodeModel>, key: u8, ind: nat, index: nat) -> bool
    decreases ind,
{
    if ind <= index {
        true
    } else {
        let i = ind as int;
        if byte_or_zero(k, i - 1) > key {
            i <= k.len() && i <= c.len() && shift16_ok(put_at(k, i, byte_or_zero(k, i - 1)), put_at(c, i, c[i - 1]), key, (ind - 1) as nat, index)
        } else {
            shift16_ok(k, c, key, (ind - 1) as nat, index)
        }
    }
}

/// `add_child` on a `NODE4` that is not full.
pub open spec fn insert4(m: NodeModel, key: u8, child: NodeModel) -> NodeModel {
    let index = position_gt(m.keys, key, 0);
    let kc = shift4(m.keys, m.children, key, m.size as nat, index);
    NodeModel {
        keys: put_at(kc.0, index as int, key),
        children: put_at(kc.1, index as int, child),
        size: (m.size + 1) as u32,
        ..m
    }
}

pub open spec fn insert4_ok(m: NodeModel, key: u8) -> bool {
    let index = position_gt(m.keys, key, 0);
    let kc = shift4(m.keys, m.children, key, m.size as nat, index);
    &&& m.size < u32::MAX
    &&& shift4_ok(m.keys, m.children, key, m.size as nat, index)
    &&& index <= kc.1.len()
}

/// `add_child` on a `NODE16` that is not full.
pub open spec fn insert16(m: NodeModel, key: u8, child: NodeModel) -> NodeModel {
    let index = position_ge(m.keys, key, 0);
    let kc = shift16(m.keys, m.children, key, m.size as nat, index);
    NodeModel {
        keys: put_at(kc.0, index as int, key),
        children: put_at(kc.1, index as int, child),
        size: (m.size + 1) as u32,
        ..m
    }
}

pub open spec fn insert16_ok(m: NodeModel, key: u8) -> bool {
    let index = position_ge(m.keys, key, 0);
    let kc = shift16(m.keys, m.children, key, m.size as nat, index);
    &&& m.size < u32::MAX
    &&& shift16_ok(m.keys, m.children, key, m.size as nat, index)
    &&& index <= kc.1.len()
}

/// What `add_child(key, child)` makes of a node. A full `NODE4` first grows
/// into a `NODE16`; a full `NODE16` grows into a `NODE48`, and a `NODE48`,
/// a `NODE256` or a leaf takes no child.
pub open spec fn add_child_model(m: NodeModel, key: u8, child: NodeModel) -> NodeModel {
    if m.node_type == NODE4 {
        if m.size != NODE4MAX {
            insert4(m, key, child)
        } else {
            insert16(with_type(m, NODE16), key, child)
        }
    } else if m.node_type == NODE16 {
        if m.size != NODE16MAX {
            insert16(m, key, child)
        } else {
            with_type(m, NODE48)
        }
    } else {
        m
    }
}

/// `add_child(key, _)` does not panic.
pub open spec fn add_child_ok(m: NodeModel, key: u8) -> bool {
    if m.node_type == NODE4 {
        if m.size != NODE4MAX {
            insert4_ok(m, key)
        } else {
            insert16_ok(with_type(m, NODE16), key)
        }
    } else if m.node_type == NODE16 {
        m.size != NODE16MAX ==> insert16_ok(m, key)
    } else {
        true
    }
}

/// `a` and `b` agree on every field but `keys` and `children`.
pub open spec fn same_but_slots(a: Node, b: Node) -> bool {
    &&& a.children_bytes == b.children_bytes
    &&& a.prefix == b.prefix
    &&& a.prefix_len == b.prefix_len
    &&& a.size == b.size
    &&& a.need_flush == b.need_flush
    &&& a.key == b.key
    &&& a.key_size == b.key_size
    &&& a.value == b.value
    &&& a.node_type == b.node_type
}

pub proof fn lemma_models_put(c: Seq<Node>, i: int, x: Node)
    requires
        0 <= i <= c.len(),
    ensures
        models(put_at(c, i, x)) =~= put_at(models(c), i, x@),
{
}

pub(crate) fn get_or_zero(v: &Vec<u8>, i: usize) -> (r: u8)
    ensures
        r == byte_or_zero(v@, i as int),
{
    if i < v.len() {
        v[i]
    } else {
        0
    }
}

fn put_node(v: &mut Vec<Node>, i: usize, x: Node)
    requires
        i <= old(v)@.len(),
    ensures
        final(v)@ == put_at(old(v)@, i as int, x),
{
    if i >= v.len() {
        v.insert(i, x);
    } else {
        v.set(i, x);
    }
}

fn put_byte(v: &mut Vec<u8>, i: usize, x: u8)
    requires
        i <= old(v)@.len(),
    ensures
        final(v)@ == put_at(old(v)@, i as int, x),
{
    if v.len() <= i {
        v.insert(i, x);
    } else {
        v.set(i, x);
    }
}

// ---------------------------------------------------------------------------
// A sorted node behaves as an ordered map from key bytes to children
// ---------------------------------------------------------------------------

/// Keys in strictly ascending order.
pub open spec fn ascending(keys: Seq<u8>) -> bool {
    forall|i: int, j: int| 0 <= i < j < keys.len() ==> keys[i] < keys[j]
}

proof fn lemma_ascending_at_least(keys: Seq<u8>, i: int)
    requires
        ascending(keys),
        0 <= i < keys.len(),
    ensures
        keys[i] >= i,
    decreases i,
{
    if i > 0 {
        lemma_ascending_at_least(keys, i - 1);
    }
}

/// Ascending bytes are at most 256.
pub proof fn lemma_ascending_len(keys: Seq<u8>)
    requires
        ascending(keys),
    ensures
        keys.len() <= 256,
{
    if keys.len() > 256 {
        lemma_ascending_at_least(keys, 256);
    }
}

/// A `NODE4` or `NODE16` whose keys ascend, with one child per key and the
/// size counting them.
pub open spec fn sorted_node(m: NodeModel) -> bool {
    &&& m.node_type == NODE4 || m.node_type == NODE16
    &&& m.keys.len() == m.size
    &&& m.children.len() == m.size
    &&& ascending(m.keys)
}

/// The position where `b` belongs in ascending `keys` that do not hold it.
pub proof fn lemma_position_sorted(keys: Seq<u8>, b: u8, from: nat)
    requires
        ascending(keys),
        !keys.contains(b),
        from <= keys.len(),
        forall|j: int| 0 <= j < from ==> keys[j] < b,
    ensures
        position_gt(keys, b, from) == position_ge(keys, b, from),
        position_gt(keys, b, from) <= keys.len(),
        forall|j: int| 0 <= j < position_gt(keys, b, from) ==> keys[j] < b,
        forall|j: int| position_gt(keys, b, from) <= j < keys.len() ==> keys[j] > b,
    decreases keys.len() - from,
{
    if from < keys.len() {
        if keys[from as int] < b {
            lemma_position_sorted(keys, b, from + 1);
        } else {
            assert(keys[from as int] != b);
            assert forall|j: int| from <= j < keys.len() implies keys[j] > b by {
                if j > from {
                    assert(keys[from as int] < keys[j]);
                }
            }
        }
    }
}

/// In ascending keys, `position_eq` finds the one position of a key.
pub proof fn lemma_position_eq_sorted(keys: Seq<u8>, x: u8, from: nat)
    requires
        ascending(keys),
    ensures
        keys.contains(x) ==> (forall|j: int| from <= j < keys.len() && keys[j] == x ==> position_eq(keys, x, from) == Some(j as nat)),
        !keys.contains(x) ==> position_eq(keys, x, from) is None,
    decreases keys.len() - from,
{
    lemma_position_eq(keys, x, from);
    if from < keys.len() {
        lemma_position_eq_sorted(keys, x, from + 1);
        assert forall|j: int| from <= j < keys.len() && keys[j] == x implies position_eq(keys, x, from) == Some(j as nat) by {
            if j > from {
                assert(keys[from as int] < keys[j]);
            }
        }
    }
}

/// The shifting loop of a `NODE16`, on ascending keys with one child per
/// key, from `i` down to `index`: the entries from `index` on move one place
/// up, and the entry at `index` stays (to be written over).
pub proof fn lemma_shift16_sorted(keys: Seq<u8>, ch: Seq<NodeModel>, b: u8, index: nat, i: nat)
    requires
        ascending(keys),
        keys.len() == ch.len(),
        index <= i < keys.len(),
        forall|j: int| index <= j < keys.len() ==> keys[j] > b,
    ensures
        shift16_ok(keys.take(i as int + 1) + keys.skip(i as int), ch.take(i as int + 1) + ch.skip(i as int), b, i, index),
        shift16(keys.take(i as int + 1) + keys.skip(i as int), ch.take(i as int + 1) + ch.skip(i as int), b, i, index)
            == (keys.take(index as int + 1) + keys.skip(index as int), ch.take(index as int + 1) + ch.skip(index as int)),
    decreases i,
{
    if i > index {
        let k = keys.take(i as int + 1) + keys.skip(i as int);
        let c = ch.take(i as int + 1) + ch.skip(i as int);
        assert(k[i - 1] == keys[i - 1]);
        assert(byte_or_zero(k, i - 1) > b);
        assert(put_at(k, i as int, byte_or_zero(k, i - 1)) =~= keys.take(i as int) + keys.skip(i - 1));
        assert(put_at(c, i as int, c[i - 1]) =~= ch.take(i as int) + ch.skip(i - 1));
        lemma_shift16_sorted(keys, ch, b, index, (i - 1) as nat);
    }
}

/// The whole shifting loop of a `NODE16` on ascending keys with one child
/// per key.
pub proof fn lemma_shift16_full(keys: Seq<u8>, ch: Seq<NodeModel>, b: u8, index: nat)
    requires
        ascending(keys),
        keys.len() == ch.len(),
        index <= keys.len(),
        forall|j: int| index <= j < keys.len() ==> keys[j] > b,
    ensures
        shift16_ok(keys, ch, b, keys.len(), index),
        index < keys.len() ==> shift16(keys, ch, b, keys.len(), index)
            == (keys.take(index as int + 1) + keys.skip(index as int), ch.take(index as int + 1) + ch.skip(index as int)),
        index == keys.len() ==> shift16(keys, ch, b, keys.len(), index) == (keys, ch),
{
    let n = keys.len();
    if index < n {
        assert(byte_or_zero(keys, n - 1) > b);
        assert(put_at(keys, n as int, byte_or_zero(keys, n - 1)) =~= keys.take(n as int) + keys.skip(n - 1));
        assert(put_at(ch, n as int, ch[n - 1]) =~= ch.take(n as int) + ch.skip(n - 1));
        lemma_shift16_sorted(keys, ch, b, index, (n - 1) as nat);
    }
}

/// What a sorted node becomes when `b` is added to it.
pub proof fn lemma_add_child_sorted(m: NodeModel, b: u8, c: NodeModel)
    requires
        sorted_node(m),
        !m.keys.contains(b),
        add_child_ok(m, b),
        !(m.node_type == NODE16 && m.size == NODE16MAX),
    ensures
        ({
            let index = position_ge(m.keys, b, 0) as int;
            let m2 = add_child_model(m, b, c);
            &&& m2.keys == m.keys.insert(index, b)
            &&& m2.children == m.children.insert(index, c)
            &&& m2.size == m.size + 1
            &&& m2.node_type == (if m.node_type == NODE4 && m.size == NODE4MAX { NODE16 } else { m.node_type })
            &&& forall|j: int| 0 <= j < index ==> m.keys[j] < b
            &&& forall|j: int| index <= j < m.keys.len() ==> m.keys[j] > b
            &&& 0 <= index <= m.keys.len()
        }),
{
    let keys = m.keys;
    let ch = m.children;
    lemma_position_sorted(keys, b, 0);
    let index = position_ge(keys, b, 0);
    lemma_shift16_full(keys, ch, b, index);
    let m2 = add_child_model(m, b, c);
    if m.node_type == NODE4 && m.size != NODE4MAX {
        if index < keys.len() {
            let n = keys.len();
            assert(keys[n - 1] > b);
            assert(!shift4_ok(keys, ch, b, n, index));
        }
        assert(m2.keys =~= keys.insert(index as int, b));
        assert(m2.children =~= ch.insert(index as int, c));
    } else {
        if index < keys.len() {
            assert(m2.keys =~= keys.insert(index as int, b));
            assert(m2.children =~= ch.insert(index as int, c));
        } else {
            assert(m2.keys =~= keys.insert(index as int, b));
            assert(m2.children =~= ch.insert(index as int, c));
        }
    }
}

/// Adding a child under a new byte to a sorted `NODE4` or `NODE16` (one
/// that is not a full `NODE16`) keeps it sorted: `find_child` then gives the
/// new child for that byte, and the old child for every byte it held before.
pub proof fn law_find_child_after_add_child(m: NodeModel, b: u8, c: NodeModel, x: u8)
    requires
        sorted_node(m),
        !m.keys.contains(b),
        add_child_ok(m, b),
        !(m.node_type == NODE16 && m.size == NODE16MAX),
    ensures
        sorted_node(add_child_model(m, b, c)),
        found_slot(add_child_model(m, b, c), b) matches Some(j) && add_child_model(m, b, c).children[j] == c,
        m.keys.contains(x) ==> (found_slot(add_child_model(m, b, c), x) matches Some(j)
            && add_child_model(m, b, c).children[j] == m.children[found_slot(m, x)->0]),
        !m.keys.contains(x) && x != b ==> found_slot(add_child_model(m, b, c), x) is None,
{
    lemma_add_child_sorted(m, b, c);
    let index = position_ge(m.keys, b, 0) as int;
    lemma_ascending_len(m.keys);
    let m2 = add_child_model(m, b, c);
    let k2 = m2.keys;
    assert(ascending(k2)) by {
        assert forall|i: int, j: int| 0 <= i < j < k2.len() implies k2[i] < k2[j] by {
            if j < index {
            } else if j == index {
            } else if i < index {
            } else if i == index {
            } else {
                assert(k2[i] == m.keys[i - 1] && k2[j] == m.keys[j - 1]);
            }
        }
    }
    assert(k2[index] == b);
    assert(k2.contains(b));
    lemma_position_eq_sorted(k2, b, 0);
    lemma_ascending_len(k2);
    lemma_position_eq_sorted(k2, x, 0);
    lemma_position_eq_sorted(m.keys, x, 0);
    if m.keys.contains(x) {
        let jx = choose|j: int| 0 <= j < m.keys.len() && m.keys[j] == x;
        let j2 = if jx < index { jx } else { jx + 1 };
        assert(k2[j2] == x);
        assert(k2.contains(x));
    }
    if !m.keys.contains(x) && x != b {
        if k2.contains(x) {
            let j2 = choose|j: int| 0 <= j < k2.len() && k2[j] == x;
            if j2 < index {
                assert(m.keys[j2] == x);
            } else if j2 > index {
                assert(m.keys[j2 - 1] == x);
            }
        }
    }
}

// ---------------------------------------------------------------------------
// Executable node operations
// ---------------------------------------------------------------------------

impl Node {
    /// A copy of the whole subtree.
    pub fn deep_copy(&self) -> (r: Node)
        ensures
            r@ == self@,
        decreases self,
    {
        let mut children: Vec<Node> = Vec::new();
        let mut i: usize = 0;
        while i < self.children.len()
            invariant
                i <= self.children@.len(),
                children@.len() == i,
                forall|j: int| 0 <= j < i ==> (#[trigger] children@[j])@ == self.children@[j]@,
            decreases self.children@.len() - i,
        {
            proof {
                assert(decreases_to!(self.children => self.children@[i as int]));
            }
            let c = self.children[i].deep_copy();
            children.push(c);
            i += 1;
        }
        let r = Node {
            keys: copy_bytes(&self.keys),
            children,
            children_bytes: copy_bytes(&self.children_bytes),
            prefix: copy_bytes(&self.prefix),
            prefix_len: self.prefix_len,
            size: self.size,
            need_flush: self.need_flush,
            key: copy_bytes(&self.key),
            key_size: self.key_size,
            value: copy_bytes(&self.value),
            node_type: self.node_type,
        };
        proof {
            lemma_model_children(r);
            lemma_model_children(*self);
            assert(r@.children =~= self@.children);
        }
        r
    }

    /// Copies the first `num_bytes` bytes of `src` (at most as many as the
    /// length of `src`, taken modulo 2^32) to the front of the prefix.
    pub fn memcpy(&mut self, src: &Vec<u8>, num_bytes: u32)
        ensures
            final(self)@ == with_prefix(old(self)@, memcpy_prefix(old(self).prefix@, src@, num_bytes)),
    {
        let ghost old_prefix = self.prefix@;
        let mut i: u32 = 0;
        while i < num_bytes && i < src.len() as u32
            invariant
                i <= memcpy_count(src@, num_bytes),
                self.prefix@ == src@.take(i as int) + old_prefix,
                self.keys == old(self).keys,
                self.children == old(self).children,
                self.children_bytes == old(self).children_bytes,
                self.prefix_len == old(self).prefix_len,
                self.size == old(self).size,
                self.need_flush == old(self).need_flush,
                self.key == old(self).key,
                self.key_size == old(self).key_size,
                self.value == old(self).value,
                self.node_type == old(self).node_type,
            decreases num_bytes - i,
        {
            let b = src[i as usize];
            self.prefix.insert(i as usize, b);
            proof {
                assert(src@.take(i as int + 1) =~= src@.take(i as int).push(b));
            }
            i += 1;
            assert(self.prefix@ =~= src@.take(i as int) + old_prefix);
        }
    }

    /// Overwrites the first `num_bytes` bytes of the prefix with those of `src`.
    pub fn memmove(&mut self, src: &Vec<u8>, num_bytes: u32)
        requires
            num_bytes <= old(self).prefix@.len(),
            num_bytes <= src@.len(),
        ensures
            final(self)@ == with_prefix(old(self)@, memmove_prefix(old(self).prefix@, src@, num_bytes)),
    {
        let ghost old_prefix = self.prefix@;
        let mut index: u32 = 0;
        while index < num_bytes
            invariant
                index <= num_bytes,
                num_bytes <= old_prefix.len(),
                num_bytes <= src@.len(),
                self.prefix@ == src@.take(index as int) + old_prefix.skip(index as int),
                self.keys == old(self).keys,
                self.children == old(self).children,
                self.children_bytes == old(self).children_bytes,
                self.prefix_len == old(self).prefix_len,
                self.size == old(self).size,
                self.need_flush == old(self).need_flush,
                self.key == old(self).key,
                self.key_size == old(self).key_size,
                self.value == old(self).value,
                self.node_type == old(self).node_type,
            decreases num_bytes - index,
        {
            let b = src[index as usize];
            self.prefix.set(index as usize, b);
            index += 1;
            assert(self.prefix@ =~= src@.take(index as int) + old_prefix.skip(index as int));
        }
    }

    /// The length of the common run of `self.key` and `other.key` from
    /// position `depth` on.
    pub fn longest_common_prefix(&self, other: &Node, depth: u32) -> (r: u32)
        requires
            depth <= self.key@.len(),
            depth <= other.key@.len(),
        ensures
            r == agree_len(self.key@, other.key@, depth as int, lcp_limit(self.key@, other.key@, depth)) as u32,
    {
        let a = self.key.len();
        let b = other.key.len();
        let m = if a < b { a } else { b };
        let limit = m - depth as usize;
        let mut i: usize = 0;
        while i < limit
            invariant
                limit == lcp_limit(self.key@, other.key@, depth),
                a == self.key@.len(),
                i <= limit,
                depth + limit <= self.key@.len(),
                depth + limit <= other.key@.len(),
                agree_len(self.key@, other.key@, depth as int, limit as nat)
                    == i + agree_len(self.key@, other.key@, depth + i, (limit - i) as nat),
            decreases limit - i,
        {
            let p: usize = depth as usize + i;
            if self.key[p] != other.key[p] {
                return i as u32;
            }
            i += 1;
        }
        i as u32
    }

    /// The most children a node of this type holds.
    pub fn max_size(&self) -> (r: u32)
        ensures
            r == max_size_of(self.node_type),
    {
        match self.node_type {
            NODE4 => NODE4MAX,
            NODE16 => NODE16MAX,
            NODE48 => NODE48MAX,
            NODE256 => NODE256MAX,
            _ => 0,
        }
    }

    pub fn is_full(&self) -> (r: bool)
        ensures
            r == (self.size == max_size_of(self.node_type)),
    {
        self.size == self.max_size()
    }

    /// Turns a node into the next larger inner node type.
    pub fn grow(&mut self)
        ensures
            final(self)@ == with_type(old(self)@, grown_type(old(self).node_type)),
    {
        match self.node_type {
            NODE4 => { self.node_type = NODE16; },
            NODE16 => { self.node_type = NODE48; },
            NODE48 => { self.node_type = NODE256; },
            _ => {},
        }
    }

    /// The position of the child for byte `key`, or -1.
    pub fn index(&self, key: u8) -> (r: i32)
        requires
            index_ok(self@, key),
        ensures
            r == index_of(self@, key),
    {
        match self.node_type {
            NODE4 => {
                let mut ind: usize = 0;
                while ind < self.keys.len()
                    invariant
                        ind <= self.keys@.len(),
                        self.node_type == NODE4,
                        position_eq(self.keys@, key, 0) == position_eq(self.keys@, key, ind as nat),
                    decreases self.keys@.len() - ind,
                {
                    if self.keys[ind] == key {
                        return ind as i32;
                    }
                    ind += 1;
                }
                -1
            },
            NODE16 => {
                let mut ind: usize = 0;
                while ind < self.keys.len()
                    invariant
                        ind <= self.keys@.len(),
                        self.node_type == NODE16,
                        position_eq(self.keys@, key, 0) == position_eq(self.keys@, key, ind as nat),
                    decreases self.keys@.len() - ind,
                {
                    let v = self.keys[ind];
                    if v >= key {
                        if ind < self.keys.len() && self.keys[ind] == key {
                            return ind as i32;
                        }
                    }
                    ind += 1;
                }
                -1
            },
            NODE48 => {
                let index = self.keys[key as usize];
                if index > 0 {
                    return (index - 1) as i32;
                }
                -1
            },
            NODE256 => key as i32,
            _ => -1,
        }
    }

    /// The child for byte `key`, if there is one.
    pub fn find_child(&self, key: u8) -> (r: Option<&Node>)
        requires
            index_ok(self@, key),
        ensures
            match found_slot(self@, key) {
                Some(j) => r is Some && *r->0 == self.children@[j],
                None => r is None,
            },
    {
        proof {
            lemma_model_children(*self);
            lemma_position_eq(self.keys@, key, 0);
        }
        match self.node_type {
            NODE4 | NODE16 | NODE48 => {
                let index = self.index(key);
                if index >= 0 {
                    if (index as usize) < self.children.len() {
                        return Some(&self.children[index as usize]);
                    }
                }
                None
            },
            NODE256 => {
                if (key as usize) < self.children.len() {
                    return Some(&self.children[key as usize]);
                }
                None
            },
            _ => None,
        }
    }

    /// The child for byte `key`, if there is one, to be changed in place.
    pub fn find_child_mut(&mut self, key: u8) -> (r: Option<&mut Node>)
        requires
            index_ok(old(self)@, key),
        ensures
            match found_slot(old(self)@, key) {
                Some(j) => r is Some && *r->0 == old(self).children@[j]
                    && final(self).children@ == old(self).children@.update(j, *final(r->0)),
                None => r is None && *final(self) == *old(self),
            },
            same_but_slots(*final(self), *old(self)),
            final(self).keys == old(self).keys,
    {
        proof {
            lemma_model_children(*self);
            lemma_position_eq(self.keys@, key, 0);
        }
        match self.node_type {
            NODE4 | NODE16 | NODE48 => {
                let index = self.index(key);
                if index >= 0 {
                    if (index as usize) < self.children.len() {
                        return Some(&mut self.children[index as usize]);
                    }
                }
                None
            },
            NODE256 => {
                if (key as usize) < self.children.len() {
                    return Some(&mut self.children[key as usize]);
                }
                None
            },
            _ => None,
        }
    }

    /// The minimum node below this one (see `minimum_model`).
    pub fn minimum(&self) -> (r: Option<Node>)
        requires
            minimum_ok(self@),
        ensures
            r matches Some(n) && n@ == minimum_model(self@),
        decreases self,
    {
        proof {
            lemma_model_children(*self);
        }
        match self.node_type {
            LEAF => Some(self.deep_copy()),
            NODE4 | NODE16 => Some(self.children[0].deep_copy()),
            NODE48 => {
                let mut i: usize = 0;
                while i < self.keys.len() && self.keys[i] == 0
                    invariant
                        i <= self.keys@.len(),
                        position_nonzero(self.keys@, 0) == position_nonzero(self.keys@, i as nat),
                    decreases self.keys@.len() - i,
                {
                    i += 1;
                }
                let k = self.keys[i];
                proof {
                    assert(decreases_to!(self.children => self.children@[k - 1]));
                }
                self.children[(k - 1) as usize].minimum()
            },
            NODE256 => {
                proof {
                    assert(decreases_to!(self.children => self.children@[0]));
                }
                self.children[0].minimum()
            },
            _ => Some(self.deep_copy()),
        }
    }

    /// The number of leading prefix bytes that `key`, read from `depth` on,
    /// follows (see `mismatch_model`).
    pub fn prefix_mis_match(&self, key: &Vec<u8>, depth: u32) -> (r: u32)
        requires
            mismatch_ok(self@, key@, depth),
        ensures
            r == mismatch_model(self@, key@, depth),
    {
        let mut index: u32 = 0;
        if self.prefix_len > MAX_PREFIX_LEN {
            proof {
                lemma_first_diff_bound(key@, depth as int, self.prefix@, 0, 0, long_scan(key@));
            }
            let mut ind: usize = 0;
            while ind < key.len() && index < MAX_PREFIX_LEN
                invariant
                    ind == index,
                    ind <= long_scan(key@),
                    depth + self.prefix_len <= u32::MAX + 1,
                    self.prefix_len > MAX_PREFIX_LEN,
                    first_diff(key@, depth as int, self.prefix@, 0, 0, long_scan(key@))
                        == first_diff(key@, depth as int, self.prefix@, 0, ind as nat, long_scan(key@)),
                decreases key@.len() - ind,
            {
                if !same_byte(key, depth as usize + ind, &self.prefix, ind) {
                    return ind as u32;
                }
                index += 1;
                ind += 1;
            }
            let min_node = self.minimum();
            let min_node = match min_node {
                Some(n) => n,
                None => { return index; },
            };
            proof {
                lemma_first_diff_bound(key@, depth as int, min_node.key@, depth as int, long_scan(key@), self.prefix_len as nat);
            }
            while index < self.prefix_len
                invariant
                    long_scan(key@) <= index <= self.prefix_len,
                    self.prefix_len > MAX_PREFIX_LEN,
                    first_diff(key@, depth as int, self.prefix@, 0, 0, long_scan(key@)) == long_scan(key@),
                    depth + self.prefix_len <= u32::MAX + 1,
                    min_node@ == minimum_model(self@),
                    first_diff(key@, depth as int, min_node.key@, depth as int, long_scan(key@), self.prefix_len as nat)
                        == first_diff(key@, depth as int, min_node.key@, depth as int, index as nat, self.prefix_len as nat),
                decreases self.prefix_len - index,
            {
                let p = (depth + index) as usize;
                if !same_byte(key, p, &min_node.key, p) {
                    assert(first_diff(key@, depth as int, min_node.key@, depth as int, index as nat, self.prefix_len as nat) == index);
                    return index;
                }
                index += 1;
            }
        } else {
            proof {
                lemma_first_diff_bound(key@, depth as int, self.prefix@, 0, 0, self.prefix_len as nat);
            }
            while index < self.prefix_len
                invariant
                    index <= self.prefix_len,
                    self.prefix_len <= MAX_PREFIX_LEN,
                    depth + self.prefix_len <= u32::MAX + 1,
                    first_diff(key@, depth as int, self.prefix@, 0, 0, self.prefix_len as nat)
                        == first_diff(key@, depth as int, self.prefix@, 0, index as nat, self.prefix_len as nat),
                decreases self.prefix_len - index,
            {
                if !same_byte(key, (depth + index) as usize, &self.prefix, index as usize) {
                    assert(first_diff(key@, depth as int, self.prefix@, 0, index as nat, self.prefix_len as nat) == index);
                    return index;
                }
                index += 1;
            }
        }
        index
    }

    /// `add_child` on a `NODE4` that is not full.
    fn insert_sorted4(&mut self, key: u8, node: &Node)
        requires
            insert4_ok(old(self)@, key),
        ensures
            final(self)@ == insert4(old(self)@, key, node@),
    {
        proof {
            lemma_model_children(*self);
        }
        let ghost m0 = self@;
        let mut index: usize = 0;
        while index < self.keys.len() && !(key < self.keys[index])
            invariant
                index <= self.keys@.len(),
                position_gt(self.keys@, key, 0) == position_gt(self.keys@, key, index as nat),
            decreases self.keys@.len() - index,
        {
            index += 1;
        }
        let ghost kc = shift4(m0.keys, m0.children, key, m0.size as nat, index as nat);
        let mut ind: u32 = self.size;
        while ind as usize > index
            invariant
                index <= self.keys@.len(),
                index == position_gt(m0.keys, key, 0),
                shift4(self.keys@, models(self.children@), key, ind as nat, index as nat) == kc,
                shift4_ok(self.keys@, models(self.children@), key, ind as nat, index as nat),
                same_but_slots(*self, *old(self)),
                m0 == old(self)@,
            decreases ind,
        {
            let prev = get_or_zero(&self.keys, (ind - 1) as usize);
            if prev > key {
                let k = self.keys[(ind - 1) as usize];
                self.keys.set(ind as usize, k);
                let c = self.children[(ind - 1) as usize].deep_copy();
                proof {
                    lemma_models_put(self.children@, ind as int, c);
                }
                put_node(&mut self.children, ind as usize, c);
            }
            ind -= 1;
        }
        put_byte(&mut self.keys, index, key);
        let c = node.deep_copy();
        proof {
            lemma_models_put(self.children@, index as int, c);
        }
        put_node(&mut self.children, index, c);
        self.size = self.size + 1;
        proof {
            lemma_model_children(*self);
        }
    }

    /// `add_child` on a `NODE16` that is not full.
    fn insert_sorted16(&mut self, key: u8, node: &Node)
        requires
            insert16_ok(old(self)@, key),
        ensures
            final(self)@ == insert16(old(self)@, key, node@),
    {
        proof {
            lemma_model_children(*self);
        }
        let ghost m0 = self@;
        let mut index: usize = 0;
        while index < self.keys.len() && !(self.keys[index] >= key)
            invariant
                index <= self.keys@.len(),
                position_ge(self.keys@, key, 0) == position_ge(self.keys@, key, index as nat),
            decreases self.keys@.len() - index,
        {
            index += 1;
        }
        let ghost kc = shift16(m0.keys, m0.children, key, m0.size as nat, index as nat);
        let mut i: u32 = self.size;
        while i as usize > index
            invariant
                index <= self.keys@.len(),
                index == position_ge(m0.keys, key, 0),
                shift16(self.keys@, models(self.children@), key, i as nat, index as nat) == kc,
                shift16_ok(self.keys@, models(self.children@), key, i as nat, index as nat),
                same_but_slots(*self, *old(self)),
                m0 == old(self)@,
            decreases i,
        {
            let prev = get_or_zero(&self.keys, (i - 1) as usize);
            if prev > key {
                put_byte(&mut self.keys, i as usize, prev);
                let c = self.children[(i - 1) as usize].deep_copy();
                proof {
                    lemma_models_put(self.children@, i as int, c);
                }
                put_node(&mut self.children, i as usize, c);
            }
            i -= 1;
        }
        put_byte(&mut self.keys, index, key);
        let c = node.deep_copy();
        proof {
            lemma_models_put(self.children@, index as int, c);
        }
        put_node(&mut self.children, index, c);
        self.size = self.size + 1;
        proof {
            lemma_model_children(*self);
        }
    }

    /// Adds `node` under byte `key` (see `add_child_model`).
    pub fn add_child(&mut self, key: u8, node: &Node)
        requires
            add_child_ok(old(self)@, key),
        ensures
            final(self)@ == add_child_model(old(self)@, key, node@),
    {
        match self.node_type {
            NODE4 => {
                if !self.is_full() {
                    self.insert_sorted4(key, node);
                } else {
                    self.grow();
                    self.insert_sorted16(key, node);
                }
            },
            NODE16 => {
                if !self.is_full() {
                    self.insert_sorted16(key, node);
                } else {
                    self.grow();
                }
            },
            _ => {},
        }
    }

    pub fn is_leaf(&self) -> (r: bool)
        ensures
            r == (self.node_type == LEAF),
    {
        self.node_type == LEAF
    }

    /// Whether this is a leaf whose key is `key`.
    pub fn is_match(&self, key: &Vec<u8>) -> (r: bool)
        ensures
            r == (self.node_type == LEAF && self.key@ == key@),
    {
        if self.node_type != LEAF {
            return false;
        }
        bytes_eq(&self.key, key)
    }
}


/// A fresh node of the given type, with no children, prefix, key or value.
pub fn new_node(node_type: u8) -> (r: Node)
    ensures
        r@ == empty_model(node_type),
{
    let prefix = if node_type == NODE4 || node_type == NODE16 {
        Vec::with_capacity(MAX_PREFIX_LEN as usize)
    } else {
        Vec::new()
    };
    let r = Node {
        keys: Vec::new(),
        children: Vec::new(),
        children_bytes: Vec::new(),
        prefix,
        prefix_len: 0,
        size: 0,
        need_flush: true,
        key: Vec::new(),
        key_size: 0,
        value: Vec::new(),
        node_type,
    };
    proof {
        lemma_model_children(r);
    }
    r
}

} // verus!
