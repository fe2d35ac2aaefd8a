use contract_abi::version::{AbiVersion, CompareOp};
use std::cmp::Ordering;

#[test]
fn version_has_two_numbers() {
    let version = AbiVersion::new(2, 7);
    assert_eq!(version.major(), 2);
    assert_eq!(version.minor(), 7);
    assert_eq!(version.__hash__(), 0x0207);
}

#[test]
fn major_number_decides_first() {
    let old = AbiVersion::new(1, 9);
    let new = AbiVersion::new(2, 0);
    assert!(old.__richcmp__(&new, CompareOp::Lt));
    assert!(old.__richcmp__(&new, CompareOp::Le));
    assert!(old.__richcmp__(&new, CompareOp::Ne));
    assert!(!old.__richcmp__(&new, CompareOp::Eq));
    assert!(!old.__richcmp__(&new, CompareOp::Gt));
    assert!(!old.__richcmp__(&new, CompareOp::Ge));
    assert!(old.__hash__() < new.__hash__());
}

#[test]
fn minor_number_decides_then() {
    let a = AbiVersion::new(2, 3);
    let b = AbiVersion::new(2, 2);
    assert!(a.__richcmp__(&b, CompareOp::Gt));
    assert!(a.__richcmp__(&a, CompareOp::Ge));
    assert!(a.__richcmp__(&a, CompareOp::Le));
    assert!(a.__richcmp__(&a, CompareOp::Eq));
}

#[test]
fn comparisons_are_complements() {
    for order in [Ordering::Less, Ordering::Equal, Ordering::Greater] {
        assert_ne!(CompareOp::Lt.accepts(order), CompareOp::Ge.accepts(order));
        assert_ne!(CompareOp::Gt.accepts(order), CompareOp::Le.accepts(order));
        assert_ne!(CompareOp::Eq.accepts(order), CompareOp::Ne.accepts(order));
    }
    assert!(CompareOp::Lt.holds(1, 2));
    assert!(!CompareOp::Gt.holds(1, 2));
}
