use bitsetium::BitComplement;
use bitsetium::BitDifference;
use bitsetium::BitDisjoint;
use bitsetium::BitEmpty;
use bitsetium::BitFull;
use bitsetium::BitIntersection;
use bitsetium::BitSearch;
use bitsetium::BitSet;
use bitsetium::BitSubset;
use bitsetium::BitTest;
use bitsetium::BitTestAll;
use bitsetium::BitTestNone;
use bitsetium::BitUnion;
use bitsetium::BitUnset;
use bitsetium::Complement;
use bitsetium::Difference;
use bitsetium::Intersection;
use bitsetium::Union;

#[test]
fn double_complement_returns_original() {
    let x: u8 = 0b0101;
    let c: Complement<u8> = x.complement();
    let back: u8 = c.complement();
    assert_eq!(back, x);
    assert_eq!(Complement(Complement(x)).double_complement_unwrap(), x);
}

#[test]
fn double_complement_tests_identically() {
    let x: u8 = 0b1001_0110;
    let cc = Complement(Complement(x));
    for i in 0..20 {
        assert_eq!(cc.test(i), x.test(i));
    }
}

#[test]
fn de_morgan_on_leaves() {
    let x: u8 = 0b0011_1010;
    let y: u8 = 0b0101_0110;
    let lhs = x.union(y).complement();
    let rhs = x.complement().intersection(y.complement());
    for i in 0..20 {
        assert_eq!(lhs.test(i), rhs.test(i));
    }
}

#[test]
fn subset_agrees_with_difference_emptiness() {
    let pairs: [(u8, u8); 4] = [(0b0010, 0b0110), (0b1010, 0b0110), (0, 0xFF), (0xFF, 0)];
    for (a, b) in pairs {
        assert_eq!(a.is_subset_of(&b), a.difference(b).test_none());
        assert_eq!(a.is_subset_of(&b), Difference(a, b).test_none());
    }
}

#[test]
fn disjoint_agrees_with_intersection_emptiness() {
    let pairs: [(u8, u8); 4] = [(0b0010, 0b0101), (0b1010, 0b0110), (0, 0xFF), (0xFF, 0xFF)];
    for (a, b) in pairs {
        assert_eq!(a.is_disjoint(&b), a.intersection(b).test_none());
        assert_eq!(a.is_disjoint(&b), Intersection(a, b).test_none());
    }
}

#[test]
fn complement_of_empty_is_full() {
    let f: Complement<u8> = BitFull::full();
    assert!(f.test(0));
    assert!(f.test(7));
    assert!(f.test(1000));
    assert!(f.test_all());
    assert!(!f.test_none());
    let e: Complement<u8> = Complement(0xFF);
    assert!(!e.test(3));
    assert!(e.test(8));
}

#[test]
fn complement_set_unsets_inner() {
    let mut c: Complement<u8> = Complement(0b0100);
    c.set(2);
    assert_eq!(c.0, 0);
    assert!(c.test(2));
    c.unset(5);
    assert_eq!(c.0, 0b0010_0000);
    assert!(!c.test(5));
}

#[test]
fn union_full_and_empty() {
    let f: Union<Complement<u8>, u8> = BitFull::full();
    assert!(f.test(2));
    assert!(f.test(500));
    let e: Union<u8, u8> = BitEmpty::empty();
    assert!(e.test_none());
    assert!(!e.test(0));
}

#[test]
fn union_mutation_dispatches_on_limit() {
    let mut u: Union<u8, u64> = Union(0, 0);
    u.set(3);
    u.set(10);
    assert_eq!(u.0, 0b1000);
    assert_eq!(u.1, 1 << 10);
    assert!(u.test(3));
    assert!(u.test(10));
    u.unset(3);
    assert!(!u.test(3));
}

#[test]
fn intersection_mutation_touches_both() {
    let mut x: Intersection<u8, u8> = Intersection(0, 0);
    x.set(2);
    assert_eq!(x.0, 0b100);
    assert_eq!(x.1, 0b100);
    assert!(x.test(2));
    x.unset(2);
    assert!(!x.test(2));
    assert_eq!(x.0, 0);
}

#[test]
fn difference_set_clears_right() {
    let mut d: Difference<u8, u8> = Difference(0, 0b0100);
    assert!(!d.test(2));
    d.set(2);
    assert!(d.test(2));
    assert_eq!(d.0, 0b100);
    assert_eq!(d.1, 0);
}

#[test]
fn test_all_on_composites() {
    let f: Intersection<Complement<u8>, Complement<u8>> = Intersection(Complement(0), Complement(0));
    assert!(f.test_all());
    let g: Intersection<Complement<u8>, Complement<u8>> = Intersection(Complement(0), Complement(1));
    assert!(!g.test_all());
    let d: Difference<Complement<u8>, u8> = Difference(Complement(0), 0);
    assert!(d.test_all());
}

#[test]
fn swap_sets_exchanges_operands() {
    let u = Union(1u8, 7u64);
    let v = u.swap_sets();
    assert_eq!(v.0, 7u64);
    assert_eq!(v.1, 1u8);
    let x = Intersection(2u8, 9u64);
    let y = x.swap_sets();
    assert_eq!(y.0, 9u64);
    assert_eq!(y.1, 2u8);
}

#[test]
fn complement_accessors() {
    let mut c = Complement(5u8);
    assert_eq!(*c.inner(), 5);
    *c.inner_mut() = 9;
    assert_eq!(c.into_inner(), 9);
}

#[test]
fn distribution_through_union() {
    let u = Union(0b0011u8, 0b1100u8);
    let r = u.intersection(0b0110u8);
    for i in 0..10 {
        assert_eq!(r.test(i), (0b0011u8.test(i) || 0b1100u8.test(i)) && 0b0110u8.test(i));
    }
    let u2 = Union(0b0011u8, 0b1100u8);
    let d = u2.difference(0b0110u8);
    for i in 0..10 {
        assert_eq!(d.test(i), (0b0011u8.test(i) || 0b1100u8.test(i)) && !0b0110u8.test(i));
    }
}

#[test]
fn word_array_round_trip() {
    let mut a: [u8; 4] = BitEmpty::empty();
    assert!(a.test_none());
    a.set(3);
    a.set(17);
    a.set(31);
    assert_eq!(a, [0b1000, 0, 0b0000_0010, 0b1000_0000]);
    assert!(a.test(17));
    assert!(!a.test(16));
    assert!(!a.test(32));
    a.unset(17);
    assert!(!a.test(17));
    assert!(!a.test_none());
    assert!(!a.test_all());
}

#[test]
fn word_array_search() {
    let mut a: [u16; 4] = BitEmpty::empty();
    a.set(5);
    a.set(40);
    a.set(63);
    assert_eq!(a.find_first_set(0), Some(5));
    assert_eq!(a.find_first_set(6), Some(40));
    assert_eq!(a.find_first_set(41), Some(63));
    assert_eq!(a.find_first_set(63), Some(63));
    assert_eq!(a.find_first_set(64), None);
}

#[test]
fn word_array_algebra() {
    let a: [u8; 2] = [0b0110, 0b0011];
    let b: [u8; 2] = [0b0101, 0b0110];
    assert_eq!(a.union(b), [0b0111, 0b0111]);
    assert_eq!(a.intersection(b), [0b0100, 0b0010]);
    assert_eq!(a.difference(b), [0b0010, 0b0001]);
    assert_eq!(a.difference(b.complement()), a.intersection(b));
    let r = a.union(b.complement());
    for i in 0..20 {
        assert_eq!(r.test(i), a.test(i) || !b.test(i));
    }
    assert!([0b0010u8, 0].is_subset_of(&a));
    assert!(!a.is_subset_of(&b));
    assert!([0b1000u8, 0b1000].is_disjoint(&a));
    assert!(!a.is_disjoint(&b));
}

#[test]
fn max_and_min_helpers() {
    assert_eq!(bitsetium::max(3, 5), 5);
    assert_eq!(bitsetium::max(5, 3), 5);
    assert_eq!(bitsetium::min(3, 5), 3);
    assert_eq!(bitsetium::min(5, 3), 3);
}

#[test]
fn bool_leaf_operations() {
    let mut b: bool = BitEmpty::empty();
    assert!(b.test_none());
    assert!(!b.test(0));
    b.set(0);
    assert!(b.test(0));
    assert!(!b.test(1));
    assert!(!b.test_all());
    b.unset(0);
    assert!(!b.test(0));
    assert!(true.is_subset_of(&true));
    assert!(!true.is_subset_of(&false));
    assert!(true.is_disjoint(&false));
    assert_eq!(true.union(false), true);
    assert_eq!(true.intersection(false), false);
    assert_eq!(true.difference(true), false);
}

#[test]
fn reference_adapter_delegates() {
    let x: u8 = 0b0101;
    let r = &x;
    assert!(r.test(0));
    assert!(!r.test(1));
    assert!(!r.test_none());
    let c = r.complement();
    assert!(!c.test(0));
    assert!(c.test(1));
}
