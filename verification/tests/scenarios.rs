use bitsetium::BitComplement;
use bitsetium::BitDifference;
use bitsetium::BitEmpty;
use bitsetium::BitIntersection;
use bitsetium::BitSearch;
use bitsetium::BitSet;
use bitsetium::BitTest;
use bitsetium::BitUnion;
use bitsetium::Complement;
use bitsetium::Layered;
use bitsetium::Union;

#[test]
fn leaf_set_and_search() {
    let mut x: u8 = 0b00001010;
    x.set(4);
    assert_eq!(x, 0b00011010);
    assert_eq!(x.find_first_set(0), Some(1));
    assert_eq!(x.find_first_set(2), Some(3));
}

#[test]
fn layered_set_routes_to_segment() {
    let mut l: Layered<u8, u8, 8> = BitEmpty::empty();
    assert!(!l.test(20));
    assert_eq!(l.find_first_set(0), None);
    l.set(20);
    assert!(l.test(20));
    assert!(!l.test(19));
    assert!(!l.test(21));
    assert_eq!(l.find_first_set(0), Some(20));
    assert_eq!(l.find_first_set(20), Some(20));
    assert_eq!(l.find_first_set(21), None);
}

#[test]
fn union_of_leaves() {
    let a: u8 = 0b1010;
    let b: u8 = 0b1100;
    let u = Union(a, b);
    assert_eq!(u.find_first_set(0), Some(1));
    assert!(u.test(3));
    assert!(!u.test(4));
}

#[test]
fn difference_of_complement_is_intersection() {
    let a: u8 = 0b0110_1010;
    let b: u8 = 0b1100_0110;
    let d = a.difference(b.complement());
    assert_eq!(d, a & b);
    for i in 0..16 {
        assert_eq!(d.test(i), a.intersection(b).test(i));
    }
}

#[test]
fn union_with_complement_rewrites() {
    let a: u8 = 0b0011;
    let b: u8 = 0b0101;
    let r: Complement<u8> = a.union(b.complement());
    for i in 0..16 {
        assert_eq!(r.test(i), a.test(i) || !b.test(i));
    }
}

#[test]
fn intersection_with_complement_rewrites() {
    let a: u8 = 0b0111;
    let b: u8 = 0b0101;
    let r: u8 = a.intersection(b.complement());
    assert_eq!(r, a & !b);
}
