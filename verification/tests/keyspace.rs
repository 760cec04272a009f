use redis_lite::keyspace::Keyspace;

#[test]
fn empty_keyspace() {
    let keyspace = Keyspace::new();
    assert_eq!(keyspace.len(), 0);
    assert_eq!(keyspace.get(b"k", 0), None);
}

#[test]
fn set_then_get() {
    let mut keyspace = Keyspace::new();
    keyspace.set(b"k".to_vec(), b"v".to_vec(), None, 10);
    assert_eq!(keyspace.get(b"k", 10), Some(b"v".to_vec()));
    assert_eq!(keyspace.get(b"k", u64::MAX), Some(b"v".to_vec()));
    assert_eq!(keyspace.get(b"other", 10), None);
    assert_eq!(keyspace.len(), 1);
}

#[test]
fn set_replaces() {
    let mut keyspace = Keyspace::new();
    keyspace.set(b"k".to_vec(), b"old".to_vec(), Some(5), 0);
    keyspace.set(b"k".to_vec(), b"new".to_vec(), None, 1);
    assert_eq!(keyspace.get(b"k", 100), Some(b"new".to_vec()));
    assert_eq!(keyspace.len(), 1);
}

#[test]
fn keys_are_kept_apart() {
    let mut keyspace = Keyspace::new();
    keyspace.set(b"a".to_vec(), b"1".to_vec(), None, 0);
    keyspace.set(b"b".to_vec(), b"2".to_vec(), None, 0);
    keyspace.set(b"".to_vec(), b"3".to_vec(), None, 0);
    keyspace.set(b"a".to_vec(), b"4".to_vec(), None, 0);
    assert_eq!(keyspace.get(b"a", 0), Some(b"4".to_vec()));
    assert_eq!(keyspace.get(b"b", 0), Some(b"2".to_vec()));
    assert_eq!(keyspace.get(b"", 0), Some(b"3".to_vec()));
    assert_eq!(keyspace.len(), 3);
}

#[test]
fn keys_and_values_are_binary() {
    let mut keyspace = Keyspace::new();
    keyspace.set(vec![0, 255, 13, 10], vec![1, 0, 2], None, 0);
    assert_eq!(keyspace.get(&[0, 255, 13, 10], 0), Some(vec![1, 0, 2]));
    assert_eq!(keyspace.get(&[0, 255, 13], 0), None);
}

#[test]
fn value_expires() {
    let mut keyspace = Keyspace::new();
    keyspace.set(b"k".to_vec(), b"v".to_vec(), Some(100), 1000);
    assert_eq!(keyspace.get(b"k", 1000), Some(b"v".to_vec()));
    assert_eq!(keyspace.get(b"k", 1050), Some(b"v".to_vec()));
    assert_eq!(keyspace.get(b"k", 1099), Some(b"v".to_vec()));
    assert_eq!(keyspace.get(b"k", 1100), None);
    assert_eq!(keyspace.get(b"k", 1200), None);
    assert_eq!(keyspace.get(b"k", u64::MAX), None);
}

#[test]
fn expired_value_still_counts() {
    let mut keyspace = Keyspace::new();
    keyspace.set(b"k".to_vec(), b"v".to_vec(), Some(1), 0);
    assert_eq!(keyspace.get(b"k", 5), None);
    assert_eq!(keyspace.len(), 1);
}

#[test]
fn zero_time_to_live_is_never_seen() {
    let mut keyspace = Keyspace::new();
    keyspace.set(b"k".to_vec(), b"v".to_vec(), Some(0), 7);
    assert_eq!(keyspace.get(b"k", 7), None);
}

#[test]
fn clock_that_ran_backwards_keeps_the_value() {
    let mut keyspace = Keyspace::new();
    keyspace.set(b"k".to_vec(), b"v".to_vec(), Some(10), 500);
    assert_eq!(keyspace.get(b"k", 100), Some(b"v".to_vec()));
}

#[test]
fn large_time_to_live_does_not_overflow() {
    let mut keyspace = Keyspace::new();
    keyspace.set(b"k".to_vec(), b"v".to_vec(), Some(u64::MAX), u64::MAX - 1);
    assert_eq!(keyspace.get(b"k", u64::MAX), Some(b"v".to_vec()));
}
