use ontio_std::mock::runtime::Runtime;
use ontio_std::types::Address;

#[test]
fn storage_read_write_delete() {
    let mut rt = Runtime::default();
    assert_eq!(rt.storage_read(b"a"), None);
    rt.storage_write(b"a", b"1");
    rt.storage_write(b"b", b"2");
    rt.storage_write(b"a", b"3");
    assert_eq!(rt.storage_read(b"a"), Some(b"3".to_vec()));
    assert_eq!(rt.storage_read(b"b"), Some(b"2".to_vec()));
    rt.storage_delete(b"a");
    assert_eq!(rt.storage_read(b"a"), None);
    assert_eq!(rt.storage_read(b"b"), Some(b"2".to_vec()));
    rt.storage_delete(b"zz");
    assert_eq!(rt.storage_read(b"b"), Some(b"2".to_vec()));
}

#[test]
fn block_data_and_addresses() {
    let mut rt = Runtime::new();
    rt.timestamp = 42;
    rt.block_height = 7;
    rt.call_output_length = 3;
    rt.caller = Address { bytes: [1; 20] };
    rt.self_addr = Address { bytes: [2; 20] };
    assert_eq!(rt.timestamp(), 42);
    assert_eq!(rt.block_height(), 7);
    assert_eq!(rt.call_output_length(), 3);
    assert_eq!(rt.caller(), Address { bytes: [1; 20] });
    assert_eq!(rt.address(), Address { bytes: [2; 20] });
    assert_eq!(rt.call_contract(&rt.caller(), b"x"), None);
    let mut out = vec![9];
    rt.get_call_output(&mut out);
    assert_eq!(out, vec![9]);
    assert_eq!(Address::zero().bytes, [0; 20]);
}

#[test]
fn witnesses_notifications_and_debug() {
    let mut rt = Runtime::new();
    let a = Address { bytes: [5; 20] };
    let b = Address { bytes: [6; 20] };
    assert!(!rt.check_witness(&a));
    rt.witness.push(a);
    assert!(rt.check_witness(&a));
    assert!(!rt.check_witness(&b));
    rt.notify(b"event");
    rt.debug("message");
    assert_eq!(rt.notify, vec![b"event".to_vec()]);
    assert_eq!(rt.debug, vec!["message".to_string()]);
}

#[test]
fn storage_pairs_list_each_key_once() {
    let mut rt = Runtime::new();
    rt.storage_write(b"a", b"1");
    rt.storage_write(b"b", b"2");
    rt.storage_write(b"a", b"3");
    rt.storage_delete(b"b");
    rt.storage_write(b"c", b"4");
    let mut pairs = rt.storage.pairs();
    pairs.sort();
    assert_eq!(pairs, vec![(b"a".to_vec(), b"3".to_vec()), (b"c".to_vec(), b"4".to_vec())]);
}
