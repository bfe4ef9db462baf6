use ontio_std::abi::codec::{Sink, Source};
use ontio_std::database::node::{new_node, Node, LEAF, NODE16, NODE256, NODE4, NODE48};
use ontio_std::mock::runtime::Runtime;

fn leaf(key: &[u8], value: &[u8]) -> Node {
    let mut n = new_node(LEAF);
    n.key = key.to_vec();
    n.value = value.to_vec();
    n
}

#[test]
fn new_node_is_empty() {
    let n = new_node(NODE4);
    assert_eq!(n.node_type, NODE4);
    assert!(n.keys.is_empty() && n.children.is_empty() && n.prefix.is_empty());
    assert_eq!(n.size, 0);
    assert!(n.need_flush);
    assert_eq!(n.max_size(), 4);
    assert!(!n.is_full());
}

#[test]
fn max_size_by_type() {
    assert_eq!(new_node(NODE4).max_size(), 4);
    assert_eq!(new_node(NODE16).max_size(), 16);
    assert_eq!(new_node(NODE48).max_size(), 48);
    assert_eq!(new_node(NODE256).max_size(), 256);
    assert_eq!(new_node(LEAF).max_size(), 0);
}

#[test]
fn grow_steps_through_types() {
    let mut n = new_node(NODE4);
    n.grow();
    assert_eq!(n.node_type, NODE16);
    n.grow();
    assert_eq!(n.node_type, NODE48);
    n.grow();
    assert_eq!(n.node_type, NODE256);
    n.grow();
    assert_eq!(n.node_type, NODE256);
    let mut l = new_node(LEAF);
    l.grow();
    assert_eq!(l.node_type, LEAF);
}

#[test]
fn add_child_keeps_keys_sorted_and_find_child_finds_them() {
    let mut n = new_node(NODE16);
    n.add_child(b'm', &leaf(b"m", b"1"));
    n.add_child(b'c', &leaf(b"c", b"2"));
    n.add_child(b'x', &leaf(b"x", b"3"));
    n.add_child(b'a', &leaf(b"a", b"4"));
    assert_eq!(n.keys, b"acmx".to_vec());
    assert_eq!(n.size, 4);
    assert_eq!(n.index(b'c'), 1);
    assert_eq!(n.index(b'z'), -1);
    assert_eq!(n.find_child(b'x').unwrap().value, b"3".to_vec());
    assert_eq!(n.find_child(b'a').unwrap().value, b"4".to_vec());
    assert!(n.find_child(b'q').is_none());
}

#[test]
fn node4_grows_into_node16_when_full() {
    let mut n = new_node(NODE4);
    for b in [b'a', b'b', b'c', b'd'] {
        n.add_child(b, &leaf(&[b], b"v"));
    }
    assert!(n.is_full());
    n.add_child(b'e', &leaf(b"e", b"w"));
    assert_eq!(n.node_type, NODE16);
    assert_eq!(n.size, 5);
    assert_eq!(n.find_child(b'e').unwrap().value, b"w".to_vec());
}

#[test]
fn full_node16_grows_into_node48_and_takes_no_child() {
    let mut n = new_node(NODE16);
    for b in 0u8..16 {
        n.add_child(b, &leaf(&[b], b"v"));
    }
    assert!(n.is_full());
    n.add_child(100, &leaf(b"x", b"w"));
    assert_eq!(n.node_type, NODE48);
    assert_eq!(n.size, 16);
    assert_eq!(n.children.len(), 16);
}

#[test]
fn index_of_node48_and_node256() {
    let mut n = new_node(NODE48);
    n.keys = vec![0; 256];
    n.keys[7] = 3;
    assert_eq!(n.index(7), 2);
    assert_eq!(n.index(8), -1);
    let m = new_node(NODE256);
    assert_eq!(m.index(200), 200);
    assert!(m.find_child(200).is_none());
}

#[test]
fn find_child_mut_changes_the_child_in_place() {
    let mut n = new_node(NODE4);
    n.add_child(b'a', &leaf(b"a", b"1"));
    n.find_child_mut(b'a').unwrap().value = b"2".to_vec();
    assert_eq!(n.find_child(b'a').unwrap().value, b"2".to_vec());
    assert!(n.find_child_mut(b'b').is_none());
}

#[test]
fn is_match_and_is_leaf() {
    let l = leaf(b"abc", b"v");
    assert!(l.is_leaf());
    assert!(l.is_match(&b"abc".to_vec()));
    assert!(!l.is_match(&b"abd".to_vec()));
    assert!(!new_node(NODE4).is_match(&Vec::new()));
}

#[test]
fn memcpy_inserts_in_front_and_memmove_overwrites() {
    let mut n = new_node(NODE4);
    n.prefix = b"xy".to_vec();
    n.memcpy(&b"abcdef".to_vec(), 3);
    assert_eq!(n.prefix, b"abcxy".to_vec());
    n.memcpy(&b"q".to_vec(), 5);
    assert_eq!(n.prefix, b"qabcxy".to_vec());
    n.memmove(&b"ZZ".to_vec(), 2);
    assert_eq!(n.prefix, b"ZZbcxy".to_vec());
}

#[test]
fn longest_common_prefix_counts_the_common_run() {
    let a = leaf(b"abcdef", b"");
    let b = leaf(b"abcxyz", b"");
    assert_eq!(a.longest_common_prefix(&b, 0), 3);
    assert_eq!(a.longest_common_prefix(&b, 1), 2);
    assert_eq!(a.longest_common_prefix(&b, 3), 0);
    let c = leaf(b"ab", b"");
    assert_eq!(a.longest_common_prefix(&c, 0), 2);
}

#[test]
fn minimum_by_type() {
    let l = leaf(b"k", b"v");
    assert_eq!(l.minimum().unwrap().key, b"k".to_vec());
    let mut n4 = new_node(NODE4);
    n4.add_child(b'b', &leaf(b"b", b"1"));
    n4.add_child(b'c', &leaf(b"c", b"2"));
    assert_eq!(n4.minimum().unwrap().key, b"b".to_vec());
    let mut n256 = new_node(NODE256);
    n256.children.push(n4.clone_node());
    assert_eq!(n256.minimum().unwrap().key, b"b".to_vec());
    let mut n48 = new_node(NODE48);
    n48.keys = vec![0, 0, 1];
    n48.children.push(leaf(b"m", b"3"));
    assert_eq!(n48.minimum().unwrap().key, b"m".to_vec());
}

trait CloneNode {
    fn clone_node(&self) -> Node;
}

impl CloneNode for Node {
    fn clone_node(&self) -> Node {
        self.deep_copy()
    }
}

#[test]
fn prefix_mis_match_short_and_long() {
    let mut n = new_node(NODE4);
    n.prefix = b"abc".to_vec();
    n.prefix_len = 3;
    assert_eq!(n.prefix_mis_match(&b"xabcz".to_vec(), 1), 3);
    assert_eq!(n.prefix_mis_match(&b"xabz".to_vec(), 1), 2);
    assert_eq!(n.prefix_mis_match(&b"x".to_vec(), 1), 0);
    let mut long = new_node(NODE4);
    long.prefix = b"abcdefghij".to_vec();
    long.prefix_len = 12;
    long.add_child(b'!', &leaf(b"abcdefghijkl!", b"v"));
    assert_eq!(long.prefix_mis_match(&b"abcdefghijkl?".to_vec(), 0), 12);
    assert_eq!(long.prefix_mis_match(&b"abcdefghijXl?".to_vec(), 0), 10);
    assert_eq!(long.prefix_mis_match(&b"abcdeXghijkl?".to_vec(), 0), 5);
}

#[test]
fn encode_then_decode_gives_back_the_fields() {
    let mut n = new_node(NODE16);
    n.prefix = b"pre".to_vec();
    n.prefix_len = 3;
    n.key = b"key".to_vec();
    n.key_size = 77;
    n.value = vec![1; 300];
    n.add_child(b'a', &leaf(b"a", b"v"));
    let mut sink = Sink::new(0);
    n.encode(&mut sink);
    sink.write_byte(9);
    let mut source = Source::new(sink.bytes().to_vec());
    let d = Node::decode(&mut source).unwrap();
    assert_eq!(d.keys, n.keys);
    assert_eq!(d.prefix, b"pre".to_vec());
    assert_eq!(d.prefix_len, 3);
    assert_eq!(d.size, 1);
    assert_eq!(d.key, b"key".to_vec());
    assert_eq!(d.key_size, 77);
    assert_eq!(d.value, vec![1; 300]);
    assert_eq!(d.node_type, NODE16);
    assert!(d.children.is_empty());
    assert!(!d.need_flush);
    assert_eq!(source.read_byte(), Ok(9));
}

#[test]
fn flush_stores_every_marked_node_under_its_key() {
    let mut rt = Runtime::new();
    let mut n = new_node(NODE4);
    n.add_child(b'a', &leaf(b"a", b"1"));
    let mut quiet = leaf(b"b", b"2");
    quiet.need_flush = false;
    n.add_child(b'b', &quiet);
    n.flush(&mut rt);
    assert!(rt.storage_read(b"a").is_some());
    assert!(rt.storage_read(b"b").is_none());
    assert!(rt.storage_read(b"").is_some());
}
