use hexstore::store::Store;

#[test]
fn put_then_get_returns_the_bytes() {
    let mut s = Store::new();
    s.put("qwe", vec![1, 2, 3], vec![9; 255], 1000);
    assert_eq!(s.get("qwe"), Some(vec![1, 2, 3]));
}

#[test]
fn get_of_absent_pattern_is_none() {
    let s = Store::new();
    assert_eq!(s.get("qwe"), None);
}

#[test]
fn put_overwrites_last_writer_wins() {
    let mut s = Store::new();
    s.put("qwe", vec![1], vec![9; 255], 1000);
    s.put("qwe", vec![2], vec![8; 255], 2000);
    assert_eq!(s.get("qwe"), Some(vec![2]));
}

#[test]
fn delete_with_wrong_capability_leaves_record() {
    let mut s = Store::new();
    s.put("qwe", vec![1, 2], vec![9; 255], 1000);
    let removed = s.delete_if("qwe", &vec![7; 255]);
    assert!(!removed);
    assert_eq!(s.get("qwe"), Some(vec![1, 2]));
}

#[test]
fn delete_with_matching_capability_removes_record() {
    let mut s = Store::new();
    s.put("qwe", vec![1, 2], vec![9; 255], 1000);
    let removed = s.delete_if("qwe", &vec![9; 255]);
    assert!(removed);
    assert_eq!(s.get("qwe"), None);
}

#[test]
fn delete_of_absent_pattern_is_a_noop() {
    let mut s = Store::new();
    s.put("asd", vec![5], vec![1; 255], 1000);
    let removed = s.delete_if("qwe", &vec![1; 255]);
    assert!(!removed);
    assert_eq!(s.get("asd"), Some(vec![5]));
}

#[test]
fn prune_removes_expired_and_keeps_live() {
    let mut s = Store::new();
    s.put("q", vec![1], vec![1; 255], 500);
    s.put("w", vec![2], vec![2; 255], 1500);
    s.put("e", vec![3], vec![3; 255], 999);
    let removed = s.prune(1000);
    assert_eq!(removed, 2);
    assert_eq!(s.get("q"), None);
    assert_eq!(s.get("e"), None);
    assert_eq!(s.get("w"), Some(vec![2]));
}

#[test]
fn prune_keeps_record_expiring_exactly_now() {
    let mut s = Store::new();
    s.put("q", vec![1], vec![1; 255], 1000);
    let removed = s.prune(1000);
    assert_eq!(removed, 0);
    assert_eq!(s.get("q"), Some(vec![1]));
}
