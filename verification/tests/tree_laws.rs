use ontio_std::abi::codec::Error;
use ontio_std::database::node::{LEAF, NODE4};
use ontio_std::database::node_codec::{open, stored_tree_ok};
use ontio_std::database::node_tree::new_tree;
use ontio_std::database::store::put;
use ontio_std::mock::runtime::Runtime;

#[test]
fn search_after_first_insert() {
    let mut t = new_tree(b"t".to_vec());
    t.insert(&b"hello".to_vec(), &b"world".to_vec());
    assert_eq!(t.size, 1);
    assert_eq!(t.search(&b"hello".to_vec()), Some(b"world".to_vec()));
    assert_eq!(t.search(&b"hell".to_vec()), None);
}

#[test]
fn insert_present_key_keeps_old_value() {
    let mut t = new_tree(b"t".to_vec());
    t.insert(&b"abc".to_vec(), &b"1".to_vec());
    t.insert(&b"abd".to_vec(), &b"2".to_vec());
    t.insert(&b"abc".to_vec(), &b"3".to_vec());
    assert_eq!(t.size, 2);
    assert_eq!(t.search(&b"abc".to_vec()), Some(b"1".to_vec()));
    assert_eq!(t.search(&b"abd".to_vec()), Some(b"2".to_vec()));
}

#[test]
fn leaf_split_builds_node4_with_common_prefix() {
    let mut t = new_tree(b"t".to_vec());
    t.insert(&b"abcX".to_vec(), &b"1".to_vec());
    t.insert(&b"abcY".to_vec(), &b"2".to_vec());
    let root = t.root.as_ref().unwrap();
    assert_eq!(root.node_type, NODE4);
    assert_eq!(root.prefix_len, 3);
    assert_eq!(root.prefix, b"abc".to_vec());
    assert_eq!(root.keys, b"XY".to_vec());
    assert_eq!(t.search(&b"abcX".to_vec()), Some(b"1".to_vec()));
    assert_eq!(t.search(&b"abcY".to_vec()), Some(b"2".to_vec()));
}

#[test]
fn long_common_prefix_is_checked_against_the_minimum_leaf() {
    let mut t = new_tree(b"t".to_vec());
    t.insert(&b"0123456789abcdefA".to_vec(), &b"1".to_vec());
    t.insert(&b"0123456789abcdefB".to_vec(), &b"2".to_vec());
    let root = t.root.as_ref().unwrap();
    assert_eq!(root.prefix_len, 16);
    assert_eq!(root.prefix, b"0123456789".to_vec());
    assert_eq!(t.search(&b"0123456789abcdefB".to_vec()), Some(b"2".to_vec()));
    assert_eq!(t.search(&b"0123456789abcdeXB".to_vec()), None);
}

#[test]
fn key_holding_zero_gets_a_zero_appended() {
    let mut t = new_tree(b"t".to_vec());
    t.insert(&vec![1, 0, 2], &b"v".to_vec());
    let root = t.root.as_ref().unwrap();
    assert_eq!(root.node_type, LEAF);
    assert_eq!(root.key, vec![1, 0, 2, 0]);
    assert_eq!(t.search(&vec![1, 0, 2]), Some(b"v".to_vec()));
    t.insert(&b"ab".to_vec(), &b"w".to_vec());
    assert_eq!(t.search(&b"ab".to_vec()), Some(b"w".to_vec()));
}

#[test]
fn open_without_stored_tree_gives_a_new_tree() {
    let rt = Runtime::new();
    let t = open(&rt, b"none".to_vec()).unwrap();
    assert!(t.root.is_none());
    assert_eq!(t.size, 0);
    assert_eq!(t.key, b"none".to_vec());
}

#[test]
fn open_after_flush_gives_back_the_tree() {
    let mut rt = Runtime::new();
    let mut t = new_tree(b"tree".to_vec());
    t.insert(&b"abc".to_vec(), &b"1".to_vec());
    t.insert(&b"abd".to_vec(), &b"2".to_vec());
    t.flush(&mut rt);
    let back = open(&rt, b"tree".to_vec()).unwrap();
    assert_eq!(back.size, 2);
    assert_eq!(back.key, b"tree".to_vec());
    let r = back.root.as_ref().unwrap();
    let orig = t.root.as_ref().unwrap();
    assert_eq!(r.keys, orig.keys);
    assert_eq!(r.prefix, orig.prefix);
    assert_eq!(r.prefix_len, orig.prefix_len);
    assert!(r.children.is_empty());
    assert!(rt.storage_read(b"abc").is_some());
    assert!(rt.storage_read(b"abd").is_some());
}

#[test]
fn flush_of_empty_tree_writes_nothing() {
    let mut rt = Runtime::new();
    let mut t = new_tree(b"tree".to_vec());
    t.flush(&mut rt);
    assert!(rt.storage_read(b"tree").is_none());
}

#[test]
fn open_of_stored_bytes_that_are_not_a_byte_string() {
    let mut rt = Runtime::new();
    rt.storage_write(b"bad", &[0xFD, 0x01]);
    assert!(matches!(open(&rt, b"bad".to_vec()), Err(Error::UnexpectedEOF)));
    rt.storage_write(b"bad2", &[0xFD, 0x01, 0x00]);
    assert!(matches!(open(&rt, b"bad2".to_vec()), Err(Error::IrregularData)));
}

#[test]
fn put_then_get() {
    let mut rt = Runtime::new();
    put(&mut rt, b"k", b"value");
    assert_eq!(ontio_std::database::store::get(&rt, b"k"), Some(Ok(b"value".to_vec())));
    assert_eq!(ontio_std::database::store::get(&rt, b"other"), None);
    assert_eq!(rt.storage_read(b"k"), Some(b"\x05value".to_vec()));
}

#[test]
fn stored_tree_check() {
    let mut rt = Runtime::new();
    let mut t = new_tree(b"k".to_vec());
    t.insert(&b"abc".to_vec(), &b"v".to_vec());
    t.flush(&mut rt);
    let stored = rt.storage_read(b"k").unwrap();
    assert!(stored_tree_ok(&stored));
    // A value that is not even a byte string is left to `open` to refuse.
    assert!(stored_tree_ok(&[0xFF]));
    assert!(!stored_tree_ok(&[0x02, 0x01, 0x00]));
}
