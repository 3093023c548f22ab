use balancebeam::vecops::add_n;
use balancebeam::vecops::add_n_inplace;
use balancebeam::vecops::contains_i32;
use balancebeam::vecops::dedup;

#[test]
fn test_add_n() {
    assert_eq!(add_n(vec![1], 2), vec![3]);
}

#[test]
fn test_add_n_inplace() {
    let mut v = vec![1];
    add_n_inplace(&mut v, 2);
    assert_eq!(v, vec![3]);
}

#[test]
fn test_dedup() {
    let mut v = vec![3, 1, 0, 1, 4, 4];
    dedup(&mut v);
    assert_eq!(v, vec![3, 1, 0, 4]);
}

#[test]
fn test_add_n_empty() {
    assert_eq!(add_n(vec![], 5), Vec::<i32>::new());
}

#[test]
fn test_add_n_negative_shift() {
    assert_eq!(add_n(vec![10, -3, 0], -7), vec![3, -10, -7]);
}

#[test]
fn test_dedup_all_same() {
    let mut v = vec![2, 2, 2, 2];
    dedup(&mut v);
    assert_eq!(v, vec![2]);
}

#[test]
fn test_contains() {
    let v = vec![5, 6, 7];
    assert!(contains_i32(&v, 6));
    assert!(!contains_i32(&v, 8));
}
