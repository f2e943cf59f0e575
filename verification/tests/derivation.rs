use custody::addr::{bytes_eq, parts_eq, DerivedAddress, MAX_BUMP};
use custody::keys::{identity_part, le_bytes_u32, le_bytes_u64};
use custody::record::Identity;

#[test]
fn derive_is_deterministic() {
    let (a1, b1) = DerivedAddress::derive(vec![1, 2, 3], vec![vec![4, 5], vec![6]]).unwrap();
    let (a2, b2) = DerivedAddress::derive(vec![1, 2, 3], vec![vec![4, 5], vec![6]]).unwrap();
    assert!(a1.same_as(&a2));
    assert_eq!(b1, b2);
    assert_eq!(b1, MAX_BUMP);
}

#[test]
fn derive_distinguishes_namespaces() {
    let (a1, _) = DerivedAddress::derive(vec![1], vec![vec![7]]).unwrap();
    let (a2, _) = DerivedAddress::derive(vec![2], vec![vec![7]]).unwrap();
    assert!(!a1.same_as(&a2));
}

#[test]
fn derive_distinguishes_key_parts() {
    let (a1, _) = DerivedAddress::derive(vec![1], vec![vec![7], vec![8]]).unwrap();
    let (a2, _) = DerivedAddress::derive(vec![1], vec![vec![7], vec![9]]).unwrap();
    let (a3, _) = DerivedAddress::derive(vec![1], vec![vec![7]]).unwrap();
    assert!(!a1.same_as(&a2));
    assert!(!a1.same_as(&a3));
}

#[test]
fn clone_preserves_address() {
    let (a, _) = DerivedAddress::derive(vec![9, 8], vec![vec![1], vec![2, 3]]).unwrap();
    let c = a.clone();
    assert!(a.same_as(&c));
}

#[test]
fn byte_equality() {
    assert!(bytes_eq(&vec![1, 2, 3], &vec![1, 2, 3]));
    assert!(!bytes_eq(&vec![1, 2, 3], &vec![1, 2]));
    assert!(!bytes_eq(&vec![1, 2, 3], &vec![1, 2, 4]));
    assert!(parts_eq(&vec![vec![1], vec![2]], &vec![vec![1], vec![2]]));
    assert!(!parts_eq(&vec![vec![1], vec![2]], &vec![vec![1], vec![3]]));
    assert!(!parts_eq(&vec![vec![1]], &vec![vec![1], vec![2]]));
}

#[test]
fn little_endian_key_parts() {
    assert_eq!(le_bytes_u64(0x0102030405060708), vec![8, 7, 6, 5, 4, 3, 2, 1]);
    assert_eq!(le_bytes_u64(0), vec![0, 0, 0, 0, 0, 0, 0, 0]);
    assert_eq!(le_bytes_u64(u64::MAX), vec![255; 8]);
    assert_eq!(le_bytes_u32(0x01020304), vec![4, 3, 2, 1]);
    assert_eq!(identity_part(Identity { key: 258 }), vec![2, 1, 0, 0, 0, 0, 0, 0]);
}
