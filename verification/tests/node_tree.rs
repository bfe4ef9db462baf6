use ontio_std::database::node::LEAF;
use ontio_std::database::node_codec::open;
use ontio_std::database::node_tree::new_tree;
use ontio_std::mock::runtime::Runtime;

#[test]
fn test2() {
    let mut rt = Runtime::new();
    let mut t = new_tree("key".as_bytes().to_vec());
    let key = "abc".as_bytes().to_vec();
    let value = "value1".as_bytes().to_vec();
    t.insert(&key, &value);
    println!("t1: {:?}", t.size);
    t.flush(&mut rt);
    let t2 = open(&rt, "key".as_bytes().to_vec());
    let t2 = t2.unwrap();
    println!("t2: {:?}", t2.size);
    assert_eq!(t2.size, 1);
    assert_eq!(t2.key, b"key".to_vec());
    let root = t2.root.as_ref().unwrap();
    assert_eq!(root.node_type, LEAF);
    assert_eq!(root.key, b"abc".to_vec());
    assert_eq!(root.value, b"value1".to_vec());
    assert!(!root.need_flush);
}

#[test]
fn test() {
    let mut t = new_tree("key".as_bytes().to_vec());
    let key = "abc".as_bytes().to_vec();
    let value = "value1".as_bytes().to_vec();
    t.insert(&key, &value);
    println!("t1: {:?}", t.size);

    let key = "abc1".as_bytes().to_vec();
    let value = "value2".as_bytes().to_vec();
    t.insert(&key, &value);
    println!("t2: {:?}", t.size);
    let key = "dabc".as_bytes().to_vec();
    let value = "value3".as_bytes().to_vec();
    t.insert(&key, &value);
    println!("t3: {:?}", t.size);
    let key = "abcd".as_bytes().to_vec();
    let value = "value4".as_bytes().to_vec();
    t.insert(&key, &value);
    println!("t4: {:?}", t.size);
    let key = "dbcd".as_bytes().to_vec();
    let value = "value5".as_bytes().to_vec();
    t.insert(&key, &value);

    println!("t5: {:?}", t.size);

    let res = t.search(&key);
    if res.is_some() {
        println!("res:{:?}", res.clone().unwrap());
    } else {
        println!("ssss");
    }
    assert_eq!(res, Some(b"value5".to_vec()));
    assert_eq!(t.size, 5);
}
