use vstd::prelude::*;
use crate::database::node::{
    add_child_model, add_child_ok, lemma_add_child_sorted, position_ge, agree_len, byte_or_zero, copy_bytes, empty_model, found_slot,
    get_or_zero, index_ok, lcp_limit, lemma_ascending_len, lemma_model_children, lemma_position_eq, memcpy_prefix,
    minimum_model, minimum_ok, lemma_first_diff_bound, byte_at, first_diff, long_scan, sorted_node, NODE16MAX,
    lemma_position_eq_sorted, law_find_child_after_add_child, position_gt, position_eq, shift4_ok, mismatch_model, mismatch_ok, models, new_node, with_children,
    with_prefix_len, Node, NodeModel, LEAF, MAX_PREFIX_LEN, NODE16, NODE256, NODE4, NODE48,
};

verus! {

/// The mathematical value of a [`NodeTree`].
#[verifier::ext_equal]
pub struct TreeModel {
    pub root: Option<NodeModel>,
    pub size: u64,
    pub key: Seq<u8>,
}

/// An adaptive radix tree of byte keys and byte values, stored under `key`.
pub struct NodeTree {
    pub root: Option<Node>,
    pub size: u64,
    pub key: Vec<u8>,
}

impl View for NodeTree {
    type V = TreeModel;

    open spec fn view(&self) -> TreeModel {
        TreeModel {
            root: match self.root {
                Some(r) => Some(r@),
                None => None,
            },
            size: self.size,
            key: self.key@,
        }
    }
}

// ---------------------------------------------------------------------------
// Models
// ---------------------------------------------------------------------------

/// A leaf that holds `key` and `value`.
pub open spec fn leaf_model(key: Seq<u8>, value: Seq<u8>) -> NodeModel {
    NodeModel { key, value, ..empty_model(LEAF) }
}

/// The key after `ensure_null_terminated_key`: a zero byte is appended when
/// the key already holds a zero byte, and the key is kept as it is otherwise.
pub open spec fn null_terminated(key: Seq<u8>) -> Seq<u8> {
    if key.contains(0u8) {
        key.push(0u8)
    } else {
        key
    }
}

/// The bytes of `s` from position `n` on.
pub open spec fn drop_front(s: Seq<u8>, n: int) -> Seq<u8> {
    if n <= s.len() {
        s.skip(n)
    } else {
        Seq::empty()
    }
}

pub open spec fn min_u32(a: u32, b: u32) -> u32 {
    if a < b { a } else { b }
}

/// The common run of the leaf's key and `key`, from `depth` on.
pub open spec fn split_len(cur: NodeModel, key: Seq<u8>, depth: u32) -> u32 {
    agree_len(cur.key, key, depth as int, lcp_limit(cur.key, key, depth)) as u32
}

/// The new `NODE4` with the split prefix, before its children are added.
pub open spec fn split_leaf_base(cur: NodeModel, key: Seq<u8>, depth: u32) -> NodeModel {
    let limit = split_len(cur, key, depth);
    NodeModel {
        prefix_len: limit,
        prefix: memcpy_prefix(Seq::empty(), drop_front(key, depth as int), min_u32(MAX_PREFIX_LEN, limit)),
        ..empty_model(NODE4)
    }
}

/// A leaf split by `insert`: a `NODE4` whose prefix is the common run of the
/// two keys, holding the old leaf and a new leaf for `key`, each under its
/// byte right after the run (0 past a key's end).
pub open spec fn split_leaf_model(cur: NodeModel, key: Seq<u8>, value: Seq<u8>, depth: u32) -> NodeModel {
    let limit = split_len(cur, key, depth);
    let n3 = add_child_model(split_leaf_base(cur, key, depth), byte_or_zero(cur.key, depth + limit), cur);
    add_child_model(n3, byte_or_zero(key, depth + limit), leaf_model(key, value))
}

pub open spec fn split_leaf_ok(cur: NodeModel, key: Seq<u8>, value: Seq<u8>, depth: u32) -> bool {
    let limit = split_len(cur, key, depth);
    let n3 = add_child_model(split_leaf_base(cur, key, depth), byte_or_zero(cur.key, depth + limit), cur);
    &&& depth <= cur.key.len()
    &&& depth <= key.len()
    &&& depth + limit <= u32::MAX
    &&& add_child_ok(split_leaf_base(cur, key, depth), byte_or_zero(cur.key, depth + limit))
    &&& add_child_ok(n3, byte_or_zero(key, depth + limit))
}

/// The new `NODE4` of a prefix split, before its children are added.
pub open spec fn split_prefix_base(cur: NodeModel, mismatch: u32) -> NodeModel {
    NodeModel {
        prefix_len: mismatch,
        prefix: memcpy_prefix(Seq::empty(), cur.prefix, mismatch),
        ..empty_model(NODE4)
    }
}

/// The old node as the prefix split keeps it under the new `NODE4`: as it
/// was for a short prefix, and with its prefix length cut for a long one.
pub open spec fn split_prefix_child(cur: NodeModel, mismatch: u32) -> NodeModel {
    if cur.prefix_len < MAX_PREFIX_LEN {
        cur
    } else {
        with_prefix_len(cur, (cur.prefix_len - (mismatch + 1)) as u32)
    }
}

/// The byte under which the prefix split keeps the old node.
pub open spec fn split_prefix_byte(cur: NodeModel, depth: u32, mismatch: u32) -> u8 {
    if cur.prefix_len < MAX_PREFIX_LEN {
        cur.prefix[mismatch as int]
    } else {
        minimum_model(split_prefix_child(cur, mismatch)).key[depth + mismatch]
    }
}

/// A node split by `insert` where `key` leaves its compressed path at
/// `mismatch`: a `NODE4` with the common part of the path, holding the old
/// node and a new leaf for `key`.
pub open spec fn split_prefix_model(cur: NodeModel, key: Seq<u8>, value: Seq<u8>, depth: u32, mismatch: u32) -> NodeModel {
    let n3 = add_child_model(split_prefix_base(cur, mismatch), split_prefix_byte(cur, depth, mismatch), split_prefix_child(cur, mismatch));
    add_child_model(n3, key[depth + mismatch], leaf_model(key, value))
}

pub open spec fn split_prefix_ok(cur: NodeModel, key: Seq<u8>, value: Seq<u8>, depth: u32, mismatch: u32) -> bool {
    let child = split_prefix_child(cur, mismatch);
    let n3 = add_child_model(split_prefix_base(cur, mismatch), split_prefix_byte(cur, depth, mismatch), child);
    let n = min_u32((cur.prefix_len - (mismatch + 1)) as u32, MAX_PREFIX_LEN);
    &&& mismatch + 1 <= cur.prefix_len
    &&& depth + mismatch < key.len()
    &&& depth + mismatch <= u32::MAX
    &&& n <= cur.prefix.len()
    &&& if cur.prefix_len < MAX_PREFIX_LEN {
        &&& mismatch < cur.prefix.len()
        &&& n <= drop_front(cur.prefix, mismatch + 1).len()
    } else {
        &&& depth + mismatch + 1 <= u32::MAX
        &&& minimum_ok(child)
        &&& depth + mismatch < minimum_model(child).key.len()
        &&& n <= drop_front(minimum_model(child).key, depth + mismatch + 2).len()
    }
    &&& add_child_ok(split_prefix_base(cur, mismatch), split_prefix_byte(cur, depth, mismatch))
    &&& add_child_ok(n3, key[depth + mismatch])
}

/// The depth at which `insert` and `search` read the next key byte.
pub open spec fn descend_depth(m: NodeModel, depth: u32) -> int {
    depth + m.prefix_len
}

/// What `insert_inner(node, key, value, depth)` makes of the node, and
/// whether it added a key.
pub open spec fn insert_model(m: NodeModel, key: Seq<u8>, value: Seq<u8>, depth: u32) -> (NodeModel, bool)
    decreases m,
{
    if m.node_type == LEAF {
        if m.key == key {
            (m, false)
        } else {
            (split_leaf_model(m, key, value, depth), true)
        }
    } else if m.prefix_len != 0 && mismatch_model(m, key, depth) != m.prefix_len {
        (split_prefix_model(m, key, value, depth, mismatch_model(m, key, depth) as u32), true)
    } else {
        let d = descend_depth(m, depth);
        match found_slot(m, key[d]) {
            Some(j) => {
                let sub = insert_model(m.children[j], key, value, (d + 1) as u32);
                (with_children(m, m.children.update(j, sub.0)), sub.1)
            },
            None => (add_child_model(m, key[d], leaf_model(key, value)), true),
        }
    }
}

/// `insert_inner(node, key, value, depth)` does not panic.
pub open spec fn insert_ok(m: NodeModel, key: Seq<u8>, value: Seq<u8>, depth: u32) -> bool
    decreases m,
{
    if m.node_type == LEAF {
        m.key == key || split_leaf_ok(m, key, value, depth)
    } else if m.prefix_len != 0 && !mismatch_ok(m, key, depth) {
        false
    } else if m.prefix_len != 0 && mismatch_model(m, key, depth) != m.prefix_len {
        split_prefix_ok(m, key, value, depth, mismatch_model(m, key, depth) as u32)
    } else {
        let d = descend_depth(m, depth);
        &&& depth + m.prefix_len <= u32::MAX
        &&& d < key.len()
        &&& index_ok(m, key[d])
        &&& match found_slot(m, key[d]) {
            Some(j) => d + 1 <= u32::MAX && insert_ok(m.children[j], key, value, (d + 1) as u32),
            None => add_child_ok(m, key[d]),
        }
    }
}

/// What `search_inner(node, key, depth)` finds.
pub open spec fn search_model(m: NodeModel, key: Seq<u8>, depth: u32) -> Option<Seq<u8>>
    decreases m,
{
    if m.node_type == LEAF {
        if m.key == key {
            Some(m.value)
        } else {
            None
        }
    } else if mismatch_model(m, key, depth) != m.prefix_len {
        None
    } else {
        let d = descend_depth(m, depth);
        match found_slot(m, key[d]) {
            Some(j) => search_model(m.children[j], key, (d + 1) as u32),
            None => None,
        }
    }
}

/// `search_inner(node, key, depth)` does not panic.
pub open spec fn search_ok(m: NodeModel, key: Seq<u8>, depth: u32) -> bool
    decreases m,
{
    if m.node_type == LEAF {
        true
    } else if !mismatch_ok(m, key, depth) {
        false
    } else if mismatch_model(m, key, depth) != m.prefix_len {
        true
    } else {
        let d = descend_depth(m, depth);
        &&& depth + m.prefix_len <= u32::MAX
        &&& d < key.len()
        &&& index_ok(m, key[d])
        &&& match found_slot(m, key[d]) {
            Some(j) => d + 1 <= u32::MAX && search_ok(m.children[j], key, (d + 1) as u32),
            None => true,
        }
    }
}

/// What `NodeTree::insert(key, value)` makes of a tree.
pub open spec fn tree_insert_model(t: TreeModel, key: Seq<u8>, value: Seq<u8>) -> TreeModel {
    let k = null_terminated(key);
    match t.root {
        None => TreeModel { root: Some(leaf_model(k, value)), size: (t.size + 1) as u64, key: t.key },
        Some(r) => {
            let res = insert_model(r, k, value, 0);
            TreeModel { root: Some(res.0), size: if res.1 { (t.size + 1) as u64 } else { t.size }, key: t.key }
        },
    }
}

/// `NodeTree::insert(key, value)` does not panic.
pub open spec fn tree_insert_ok(t: TreeModel, key: Seq<u8>, value: Seq<u8>) -> bool {
    let k = null_terminated(key);
    match t.root {
        None => t.size < u64::MAX,
        Some(r) => insert_ok(r, k, value, 0) && (insert_model(r, k, value, 0).1 ==> t.size < u64::MAX),
    }
}

// ---------------------------------------------------------------------------
// Laws
// ---------------------------------------------------------------------------

/// A key inserted into an empty tree is found by `search`, with its value,
/// and the size counts it.
pub proof fn law_search_after_first_insert(t: TreeModel, key: Seq<u8>, value: Seq<u8>)
    requires
        t.root is None,
        t.size < u64::MAX,
    ensures
        tree_insert_ok(t, key, value),
        tree_insert_model(t, key, value).root is Some,
        tree_insert_model(t, key, value).size == t.size + 1,
        search_ok(tree_insert_model(t, key, value).root->0, null_terminated(key), 0),
        search_model(tree_insert_model(t, key, value).root->0, null_terminated(key), 0) == Some(value),
{
}

/// Inserting a key that `search` already finds changes nothing, and reports
/// that no key was added: the old value stays.
pub proof fn law_insert_present_key(m: NodeModel, key: Seq<u8>, value: Seq<u8>, depth: u32)
    requires
        search_model(m, key, depth) is Some,
        insert_ok(m, key, value, depth),
    ensures
        insert_model(m, key, value, depth) == (m, false),
    decreases m,
{
    if m.node_type != LEAF {
        let d = descend_depth(m, depth);
        if m.prefix_len == 0 {
            lemma_first_diff_bound(key, depth as int, m.prefix, 0, 0, 0);
        }
        let j = found_slot(m, key[d])->0;
        law_insert_present_key(m.children[j], key, value, (d + 1) as u32);
        assert(m.children.update(j, m.children[j]) =~= m.children);
        assert(with_children(m, m.children) == m);
    }
}

/// `a` at `oa + i` and `b` at `ob + i` hold the same byte, or neither holds one.
pub open spec fn agree_at(a: Seq<u8>, oa: int, b: Seq<u8>, ob: int, i: int) -> bool {
    byte_at(a, oa + i) == byte_at(b, ob + i)
}

/// The positions before `agree_len` agree.
pub proof fn lemma_agree_len(a: Seq<u8>, b: Seq<u8>, from: int, n: nat)
    ensures
        agree_len(a, b, from, n) <= n,
        forall|i: int| 0 <= i < agree_len(a, b, from, n) ==> #[trigger] agree_at(a, from, b, from, i),
    decreases n,
{
    if n > 0 && byte_at(a, from) == byte_at(b, from) {
        lemma_agree_len(a, b, from + 1, (n - 1) as nat);
        assert forall|i: int| 0 <= i < agree_len(a, b, from, n) implies #[trigger] agree_at(a, from, b, from, i) by {
            if i > 0 {
                assert(agree_at(a, from + 1, b, from + 1, i - 1));
            }
        }
    }
}

/// `first_diff` stops at the first difference: every position before its
/// result agrees, and where all agree it runs to the end.
pub proof fn lemma_first_diff_agree(a: Seq<u8>, oa: int, b: Seq<u8>, ob: int, start: nat, end: nat)
    requires
        start <= end,
    ensures
        forall|i: int| start <= i < first_diff(a, oa, b, ob, start, end) ==> #[trigger] agree_at(a, oa, b, ob, i),
        (forall|i: int| start <= i < end ==> #[trigger] agree_at(a, oa, b, ob, i)) ==> first_diff(a, oa, b, ob, start, end) == end,
        first_diff(a, oa, b, ob, start, end) < end ==> !agree_at(a, oa, b, ob, first_diff(a, oa, b, ob, start, end) as int),
    decreases end - start,
{
    if start < end {
        if byte_at(a, oa + start) == byte_at(b, ob + start) {
            lemma_first_diff_agree(a, oa, b, ob, start + 1, end);
        } else {
            assert(!agree_at(a, oa, b, ob, start as int));
        }
    }
}

/// The paths on which `search` is shown to find a key just inserted: the
/// insertion splits a leaf with another key (whose next bytes differ), or
/// splits a compressed path where the key leaves it within its first
/// `MAX_PREFIX_LEN` bytes (on a path of `MAX_PREFIX_LEN` bytes or more, the
/// byte under which the old node is kept must differ from the key's byte
/// there), or adds a leaf to a sorted
/// `NODE4` or `NODE16` (not a full `NODE16`); every node passed on the way
/// has a prefix of at most `MAX_PREFIX_LEN` bytes.
pub open spec fn insert_lands(m: NodeModel, key: Seq<u8>, value: Seq<u8>, depth: u32) -> bool
    decreases m,
{
    if m.node_type == LEAF {
        let limit = split_len(m, key, depth);
        &&& m.key != key
        &&& byte_or_zero(m.key, depth + limit) != byte_or_zero(key, depth + limit)
        &&& key.len() <= u32::MAX
    } else if m.prefix_len != 0 && mismatch_model(m, key, depth) != m.prefix_len {
        let mm = mismatch_model(m, key, depth);
        &&& m.prefix.len() <= u32::MAX
        &&& mm < MAX_PREFIX_LEN
        &&& m.prefix_len >= MAX_PREFIX_LEN ==> split_prefix_byte(m, depth, mm as u32) != key[depth + mm]
    } else {
        let d = descend_depth(m, depth);
        match found_slot(m, key[d]) {
            Some(j) => {
                &&& (m.prefix_len <= MAX_PREFIX_LEN || ((m.node_type == NODE4 || m.node_type == NODE16) && j != 0))
                &&& insert_lands(m.children[j], key, value, (d + 1) as u32)
            },
            None => sorted_node(m) && !(m.node_type == NODE16 && m.size == NODE16MAX),
        }
    }
}

/// Two children added to an empty `NODE4`: they must come in ascending
/// order of their bytes, and are then kept in that order.
proof fn lemma_add_two(base: NodeModel, k1: u8, c1: NodeModel, k2: u8, c2: NodeModel)
    requires
        base.node_type == NODE4,
        base.size == 0,
        base.keys.len() == 0,
        base.children.len() == 0,
        k1 != k2,
        add_child_ok(add_child_model(base, k1, c1), k2),
    ensures
        k1 < k2,
        add_child_model(add_child_model(base, k1, c1), k2, c2).keys == seq![k1, k2],
        add_child_model(add_child_model(base, k1, c1), k2, c2).children == seq![c1, c2],
        add_child_model(add_child_model(base, k1, c1), k2, c2).prefix == base.prefix,
        add_child_model(add_child_model(base, k1, c1), k2, c2).prefix_len == base.prefix_len,
        add_child_model(add_child_model(base, k1, c1), k2, c2).node_type == NODE4,
{
    let n3 = add_child_model(base, k1, c1);
    assert(position_gt(base.keys, k1, 0) == 0);
    assert(n3.keys =~= seq![k1]);
    assert(n3.children =~= seq![c1]);
    assert(n3.size == 1);
    if k2 < k1 {
        assert(position_gt(n3.keys, k2, 0) == 0);
        assert(byte_or_zero(n3.keys, 0) == k1);
        assert(!shift4_ok(n3.keys, n3.children, k2, 1, 0));
    } else {
        assert(position_gt(n3.keys, k2, 1) == 1);
        assert(position_gt(n3.keys, k2, 0) == 1);
        let m2 = add_child_model(n3, k2, c2);
        assert(m2.keys =~= seq![k1, k2]);
        assert(m2.children =~= seq![c1, c2]);
    }
}

/// `search` finds a key that a leaf split has just inserted.
proof fn lemma_search_split_leaf(cur: NodeModel, key: Seq<u8>, value: Seq<u8>, depth: u32)
    requires
        cur.node_type == LEAF,
        split_leaf_ok(cur, key, value, depth),
        insert_lands(cur, key, value, depth),
        search_ok(split_leaf_model(cur, key, value, depth), key, depth),
    ensures
        search_model(split_leaf_model(cur, key, value, depth), key, depth) == Some(value),
{
    let limit = split_len(cur, key, depth);
    let lim = lcp_limit(cur.key, key, depth);
    lemma_agree_len(cur.key, key, depth as int, lim);
    let base = split_leaf_base(cur, key, depth);
    let k1 = byte_or_zero(cur.key, depth + limit);
    let k2 = byte_or_zero(key, depth + limit);
    let n3 = add_child_model(base, k1, cur);
    let leaf = leaf_model(key, value);
    let m2 = split_leaf_model(cur, key, value, depth);
    lemma_add_two(base, k1, cur, k2, leaf);
    assert(m2.prefix_len == limit);
    let src = drop_front(key, depth as int);
    let cnt = if MAX_PREFIX_LEN < limit { MAX_PREFIX_LEN } else { limit };
    assert(m2.prefix =~= src.take(cnt as int));
    assert forall|i: int| 0 <= i < cnt implies #[trigger] agree_at(key, depth as int, m2.prefix, 0, i) by {
        assert(src[i] == key[depth + i]);
    }
    if limit > MAX_PREFIX_LEN {
        assert(long_scan(key) == MAX_PREFIX_LEN);
        lemma_first_diff_agree(key, depth as int, m2.prefix, 0, 0, long_scan(key));
        assert(minimum_model(m2) == cur);
        assert forall|i: int| long_scan(key) <= i < limit implies #[trigger] agree_at(key, depth as int, cur.key, depth as int, i) by {
            assert(agree_at(cur.key, depth as int, key, depth as int, i));
        }
        lemma_first_diff_agree(key, depth as int, cur.key, depth as int, long_scan(key), limit as nat);
    } else {
        lemma_first_diff_agree(key, depth as int, m2.prefix, 0, 0, limit as nat);
    }
    assert(mismatch_model(m2, key, depth) == limit);
    let d = descend_depth(m2, depth);
    assert(key[d] == k2);
    assert(position_eq(m2.keys, k2, 1) == Some(1nat));
    assert(position_eq(m2.keys, k2, 0) == Some(1nat));
    assert(found_slot(m2, k2) == Some(1int));
    assert(m2.children[1] == leaf);
    assert(search_model(leaf, key, (d + 1) as u32) == Some(value));
}

/// `search` finds a key that a split of a short prefix has just inserted.
proof fn lemma_search_split_prefix(cur: NodeModel, key: Seq<u8>, value: Seq<u8>, depth: u32)
    requires
        cur.node_type != LEAF,
        cur.prefix.len() <= u32::MAX,
        mismatch_ok(cur, key, depth),
        mismatch_model(cur, key, depth) != cur.prefix_len,
        mismatch_model(cur, key, depth) < MAX_PREFIX_LEN,
        cur.prefix_len >= MAX_PREFIX_LEN ==> split_prefix_byte(cur, depth, mismatch_model(cur, key, depth) as u32) != key[depth + mismatch_model(cur, key, depth)],
        split_prefix_ok(cur, key, value, depth, mismatch_model(cur, key, depth) as u32),
        search_ok(split_prefix_model(cur, key, value, depth, mismatch_model(cur, key, depth) as u32), key, depth),
    ensures
        search_model(split_prefix_model(cur, key, value, depth, mismatch_model(cur, key, depth) as u32), key, depth) == Some(value),
{
    let mm = mismatch_model(cur, key, depth);
    let mismatch = mm as u32;
    if cur.prefix_len > MAX_PREFIX_LEN {
        let n1 = long_scan(key);
        lemma_first_diff_bound(key, depth as int, cur.prefix, 0, 0, n1);
        lemma_first_diff_agree(key, depth as int, cur.prefix, 0, 0, n1);
        let f1 = first_diff(key, depth as int, cur.prefix, 0, 0, n1);
        if f1 >= n1 {
            lemma_first_diff_bound(key, depth as int, minimum_model(cur).key, depth as int, n1, cur.prefix_len as nat);
            assert(false);
        }
    } else {
        lemma_first_diff_bound(key, depth as int, cur.prefix, 0, 0, cur.prefix_len as nat);
        lemma_first_diff_agree(key, depth as int, cur.prefix, 0, 0, cur.prefix_len as nat);
        if cur.prefix_len < MAX_PREFIX_LEN {
            assert(!agree_at(key, depth as int, cur.prefix, 0, mismatch as int));
            assert(split_prefix_byte(cur, depth, mismatch) != key[depth + mismatch]);
        }
    }
    assert forall|i: int| 0 <= i < mismatch implies #[trigger] agree_at(key, depth as int, cur.prefix, 0, i) by {}
    if mm > cur.prefix.len() {
        assert(agree_at(key, depth as int, cur.prefix, 0, cur.prefix.len() as int));
        assert(false);
    }
    let base = split_prefix_base(cur, mismatch);
    let child = split_prefix_child(cur, mismatch);
    let b1 = split_prefix_byte(cur, depth, mismatch);
    let b2 = key[depth + mismatch];
    let leaf = leaf_model(key, value);
    let m2 = split_prefix_model(cur, key, value, depth, mismatch);
    lemma_add_two(base, b1, child, b2, leaf);
    assert(m2.prefix =~= cur.prefix.take(mismatch as int));
    assert forall|i: int| 0 <= i < mismatch implies #[trigger] agree_at(key, depth as int, m2.prefix, 0, i) by {
        assert(agree_at(key, depth as int, cur.prefix, 0, i));
    }
    lemma_first_diff_agree(key, depth as int, m2.prefix, 0, 0, mismatch as nat);
    assert(mismatch_model(m2, key, depth) == mismatch);
    assert(position_eq(m2.keys, b2, 1) == Some(1nat));
    assert(position_eq(m2.keys, b2, 0) == Some(1nat));
    assert(found_slot(m2, b2) == Some(1int));
    assert(m2.children[1] == leaf);
    assert(search_model(leaf, key, (depth + mismatch + 1) as u32) == Some(value));
}

/// A `NODE4` or `NODE16` whose key follows its whole compressed path keeps
/// doing so when its first child is replaced by one with the same key, or by
/// one whose key is the key looked for.
proof fn lemma_mismatch_kept(m: NodeModel, m2: NodeModel, key: Seq<u8>, depth: u32)
    requires
        m2.prefix == m.prefix,
        m2.prefix_len == m.prefix_len,
        m.node_type == NODE4 || m.node_type == NODE16,
        m2.node_type == NODE4 || m2.node_type == NODE16,
        mismatch_model(m, key, depth) == m.prefix_len,
        m2.children[0].key == m.children[0].key || m2.children[0].key == key,
    ensures
        mismatch_model(m2, key, depth) == m2.prefix_len,
{
    if m.prefix_len > MAX_PREFIX_LEN {
        let n1 = long_scan(key);
        lemma_first_diff_bound(key, depth as int, m.prefix, 0, 0, n1);
        if m2.children[0].key == key {
            assert forall|i: int| n1 <= i < m.prefix_len implies #[trigger] agree_at(key, depth as int, key, depth as int, i) by {}
            lemma_first_diff_agree(key, depth as int, key, depth as int, n1, m.prefix_len as nat);
        }
    }
}

/// `search` finds the key that `insert` has just added, with its value, on
/// the paths that `insert_lands` describes (see its doc): reading back what
/// was written.
pub proof fn law_search_after_insert(m: NodeModel, key: Seq<u8>, value: Seq<u8>, depth: u32)
    requires
        insert_ok(m, key, value, depth),
        insert_lands(m, key, value, depth),
        search_ok(insert_model(m, key, value, depth).0, key, depth),
    ensures
        insert_model(m, key, value, depth).1,
        search_model(insert_model(m, key, value, depth).0, key, depth) == Some(value),
    decreases m,
{
    if m.node_type == LEAF {
        lemma_search_split_leaf(m, key, value, depth);
    } else if m.prefix_len != 0 && mismatch_model(m, key, depth) != m.prefix_len {
        lemma_search_split_prefix(m, key, value, depth);
    } else {
        let d = descend_depth(m, depth);
        let b = key[d];
        let m2 = insert_model(m, key, value, depth).0;
        if m.prefix_len == 0 {
            lemma_first_diff_bound(key, depth as int, m.prefix, 0, 0, 0);
        }
        match found_slot(m, b) {
            Some(j) => {
                let sub = insert_model(m.children[j], key, value, (d + 1) as u32);
                assert(m2 == with_children(m, m.children.update(j, sub.0)));
                if m.prefix_len > MAX_PREFIX_LEN {
                    assert(m2.children[0] == m.children[0]);
                    lemma_mismatch_kept(m, m2, key, depth);
                }
                assert(mismatch_model(m2, key, depth) == mismatch_model(m, key, depth));
                assert(found_slot(m2, b) == Some(j));
                law_search_after_insert(m.children[j], key, value, (d + 1) as u32);
                assert(m2.children[j] == sub.0);
                assert(search_model(m2, key, depth) == search_model(sub.0, key, (d + 1) as u32));
            },
            None => {
                lemma_position_eq(m.keys, b, 0);
                lemma_position_eq_sorted(m.keys, b, 0);
                lemma_ascending_len(m.keys);
                assert(!m.keys.contains(b));
                law_find_child_after_add_child(m, b, leaf_model(key, value), b);
                lemma_add_child_sorted(m, b, leaf_model(key, value));
                if m.prefix_len > MAX_PREFIX_LEN {
                    let index = position_ge(m.keys, b, 0) as int;
                    assert(m2.children == m.children.insert(index, leaf_model(key, value)));
                    if index == 0 {
                        assert(m2.children[0].key == key);
                    } else {
                        assert(m2.children[0] == m.children[0]);
                    }
                    lemma_mismatch_kept(m, m2, key, depth);
                }
                assert(mismatch_model(m2, key, depth) == mismatch_model(m, key, depth));
                let j2 = found_slot(m2, b)->0;
                assert(m2.children[j2] == leaf_model(key, value));
                assert(search_model(m2, key, depth) == search_model(leaf_model(key, value), key, (d + 1) as u32));
            },
        }
    }
}

/// `NodeTree::search` finds the key that `NodeTree::insert` has just added
/// to a tree, with its value: into an empty tree always, and otherwise on the
/// paths that `insert_lands` describes.
pub proof fn law_tree_search_after_insert(t: TreeModel, key: Seq<u8>, value: Seq<u8>)
    requires
        tree_insert_ok(t, key, value),
        t.root matches Some(r) ==> insert_lands(r, null_terminated(key), value, 0),
        search_ok(tree_insert_model(t, key, value).root->0, null_terminated(key), 0),
    ensures
        tree_insert_model(t, key, value).size == t.size + 1,
        search_model(tree_insert_model(t, key, value).root->0, null_terminated(key), 0) == Some(value),
{
    if let Some(r) = t.root {
        law_search_after_insert(r, null_terminated(key), value, 0);
    }
}

// ---------------------------------------------------------------------------
// Executable code
// ---------------------------------------------------------------------------

fn new_leaf_node(key: &Vec<u8>, value: &Vec<u8>) -> (r: Node)
    ensures
        r@ == leaf_model(key@, value@),
{
    let r = Node {
        keys: Vec::new(),
        children: Vec::new(),
        children_bytes: Vec::new(),
        prefix: Vec::new(),
        prefix_len: 0,
        size: 0,
        need_flush: true,
        key: copy_bytes(key),
        key_size: 0,
        value: copy_bytes(value),
        node_type: LEAF,
    };
    proof {
        lemma_model_children(r);
    }
    r
}

/// The bytes of `v` from position `n` on.
fn skip_bytes(v: &Vec<u8>, n: usize) -> (r: Vec<u8>)
    ensures
        r@ == drop_front(v@, n as int),
{
    let mut r: Vec<u8> = Vec::new();
    let mut i = n;
    while i < v.len()
        invariant
            n <= i || v@.len() <= i,
            n <= v@.len() ==> r@ == v@.subrange(n as int, i as int),
            n > v@.len() ==> r@.len() == 0,
            n <= v@.len() ==> i <= v@.len(),
        decreases v@.len() - i,
    {
        r.push(v[i]);
        i += 1;
        assert(r@ =~= v@.subrange(n as int, i as int));
    }
    assert(n <= v@.len() ==> r@ =~= v@.skip(n as int));
    r
}

/// Appends a zero byte to `key` when it already holds one, and returns a
/// copy of the result.
fn ensure_null_terminated_key(key: &mut Vec<u8>) -> (r: Vec<u8>)
    ensures
        final(key)@ == null_terminated(old(key)@),
        r@ == null_terminated(old(key)@),
{
    let mut found = false;
    let mut i: usize = 0;
    while i < key.len()
        invariant
            i <= key@.len(),
            found == (exists|j: int| 0 <= j < i && key@[j] == 0u8),
        decreases key@.len() - i,
    {
        if key[i] == 0 {
            found = true;
        }
        i += 1;
    }
    proof {
        if found {
            let j = choose|j: int| 0 <= j < key@.len() && key@[j] == 0u8;
            assert(key@.contains(0u8));
        } else {
            assert(!key@.contains(0u8));
        }
    }
    if found {
        key.push(0u8);
    }
    copy_bytes(key)
}

/// Splits a leaf whose key differs from `key` (see `split_leaf_model`).
fn split_leaf(current: &Node, key: &Vec<u8>, value: &Vec<u8>, depth: u32) -> (r: Node)
    requires
        split_leaf_ok(current@, key@, value@, depth),
    ensures
        r@ == split_leaf_model(current@, key@, value@, depth),
{
    let mut n4 = new_node(NODE4);
    let leaf = new_leaf_node(key, value);
    let limit = current.longest_common_prefix(&leaf, depth);
    n4.prefix_len = limit;
    let key_temp = skip_bytes(key, depth as usize);
    let n = if MAX_PREFIX_LEN < n4.prefix_len { MAX_PREFIX_LEN } else { n4.prefix_len };
    n4.memcpy(&key_temp, n);
    let k1 = get_or_zero(&current.key, (depth + n4.prefix_len) as usize);
    n4.add_child(k1, current);
    let k2 = get_or_zero(key, (depth + n4.prefix_len) as usize);
    n4.add_child(k2, &leaf);
    n4
}

/// Splits the compressed path of `current` where `key` leaves it (see
/// `split_prefix_model`). What is left in `current` is of no further use.
fn split_prefix(current: &mut Node, key: &Vec<u8>, value: &Vec<u8>, depth: u32, mismatch: u32) -> (r: Node)
    requires
        split_prefix_ok(old(current)@, key@, value@, depth, mismatch),
    ensures
        r@ == split_prefix_model(old(current)@, key@, value@, depth, mismatch),
{
    let ghost cur = current@;
    let mut n4 = new_node(NODE4);
    n4.prefix_len = mismatch;
    let cur_prefix = copy_bytes(&current.prefix);
    n4.memcpy(&cur_prefix, mismatch);
    if current.prefix_len < MAX_PREFIX_LEN {
        let b = current.prefix[mismatch as usize];
        n4.add_child(b, current);
        current.prefix_len = current.prefix_len - (mismatch + 1);
        let temp = skip_bytes(&current.prefix, (mismatch + 1) as usize);
        let n = if current.prefix_len < MAX_PREFIX_LEN { current.prefix_len } else { MAX_PREFIX_LEN };
        current.memmove(&temp, n);
    } else {
        current.prefix_len = current.prefix_len - (mismatch + 1);
        let min_node = current.minimum();
        let min_key = match min_node {
            Some(m) => m.key,
            None => Vec::new(),
        };
        let b = min_key[(depth + mismatch) as usize];
        n4.add_child(b, current);
        let after = depth + mismatch + 1;
        let temp = if (after as usize) < min_key.len() {
            skip_bytes(&min_key, after as usize + 1)
        } else {
            Vec::new()
        };
        proof {
            assert(temp@ == drop_front(minimum_model(split_prefix_child(cur, mismatch)).key, depth + mismatch + 2));
        }
        let n = if current.prefix_len < MAX_PREFIX_LEN { current.prefix_len } else { MAX_PREFIX_LEN };
        current.memmove(&temp, n);
    }
    let leaf = new_leaf_node(key, value);
    let b = key[(depth + mismatch) as usize];
    n4.add_child(b, &leaf);
    n4
}

/// Inserts `key` with `value` below `current`, reading the key from `depth`
/// on; returns whether a key was added (see `insert_model`).
fn insert_inner(current: &mut Node, key: &Vec<u8>, value: &Vec<u8>, depth: u32) -> (r: bool)
    requires
        insert_ok(old(current)@, key@, value@, depth),
    ensures
        (final(current)@, r) == insert_model(old(current)@, key@, value@, depth),
    decreases old(current)@,
{
    if current.is_leaf() {
        if current.is_match(key) {
            return false;
        }
        let n4 = split_leaf(current, key, value, depth);
        *current = n4;
        return true;
    }
    let mut depth = depth;
    if current.prefix_len != 0 {
        let mismatch = current.prefix_mis_match(key, depth);
        if mismatch != current.prefix_len {
            let n4 = split_prefix(current, key, value, depth, mismatch);
            *current = n4;
            return true;
        }
        depth = depth + current.prefix_len;
    }
    let b = key[depth as usize];
    proof {
        lemma_model_children(*current);
        lemma_position_eq(current.keys@, b, 0);
    }
    let ghost before = *current;
    match current.find_child_mut(b) {
        Some(node) => {
            let r = insert_inner(node, key, value, depth + 1);
            proof {
                let j = found_slot(before@, b)->0;
                lemma_model_children(*current);
                assert(models(current.children@) =~= models(before.children@).update(j, current.children@[j]@));
            }
            r
        },
        None => {
            let leaf = new_leaf_node(key, value);
            current.add_child(b, &leaf);
            true
        },
    }
}

/// The value stored under `key` below `node`, reading the key from `depth`
/// on (see `search_model`).
fn search_inner(node: &Node, key: &Vec<u8>, depth: u32) -> (r: Option<Vec<u8>>)
    requires
        search_ok(node@, key@, depth),
    ensures
        match search_model(node@, key@, depth) {
            Some(v) => r matches Some(x) && x@ == v,
            None => r is None,
        },
    decreases node@,
{
    if node.is_leaf() {
        if node.is_match(key) {
            return Some(copy_bytes(&node.value));
        }
        return None;
    }
    let mut depth = depth;
    if node.prefix_mis_match(key, depth) != node.prefix_len {
        return None;
    } else {
        depth = depth + node.prefix_len;
    }
    proof {
        lemma_model_children(*node);
    }
    match node.find_child(key[depth as usize]) {
        Some(child) => search_inner(child, key, depth + 1),
        None => None,
    }
}

impl NodeTree {
    /// Inserts `key` with `value` (see `tree_insert_model`); an existing key
    /// keeps its old value.
    pub fn insert(&mut self, key: &Vec<u8>, value: &Vec<u8>)
        requires
            tree_insert_ok(old(self)@, key@, value@),
        ensures
            final(self)@ == tree_insert_model(old(self)@, key@, value@),
    {
        let mut k = copy_bytes(key);
        let key = ensure_null_terminated_key(&mut k);
        if self.root.is_none() {
            self.root = Some(new_leaf_node(&key, value));
            self.size = self.size + 1;
            return;
        }
        let mut root = new_node(LEAF);
        match self.root.take() {
            Some(r) => { root = r; },
            None => {},
        }
        let added = insert_inner(&mut root, &key, value, 0);
        self.root = Some(root);
        if added {
            self.size = self.size + 1;
        }
    }

    /// The value stored under `key`, if any.
    pub fn search(&mut self, key: &Vec<u8>) -> (r: Option<Vec<u8>>)
        requires
            old(self).root is Some,
            search_ok(old(self)@.root->0, null_terminated(key@), 0),
        ensures
            *final(self) == *old(self),
            match search_model(old(self)@.root->0, null_terminated(key@), 0) {
                Some(v) => r matches Some(x) && x@ == v,
                None => r is None,
            },
    {
        let mut k = copy_bytes(key);
        let key = ensure_null_terminated_key(&mut k);
        match &self.root {
            Some(root) => search_inner(root, &key, 0),
            None => None,
        }
    }
}

/// An empty tree to be stored under `key`.
pub fn new_tree(key: Vec<u8>) -> (r: NodeTree)
    ensures
        r@ == (TreeModel { root: None, size: 0, key: key@ }),
{
    NodeTree { root: None, size: 0, key }
}

} // verus!
