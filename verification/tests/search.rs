use bitsetium::BitEmpty;
use bitsetium::BitSearch;
use bitsetium::BitSet;
use bitsetium::BitTest;
use bitsetium::Complement;
use bitsetium::Difference;
use bitsetium::Intersection;
use bitsetium::Layered;
use bitsetium::Union;

fn check_search_contract<S: BitSearch + BitTest>(s: &S, lower_bound: usize, hi: usize) {
    match s.find_first_set(lower_bound) {
        None => {
            for i in lower_bound..=hi {
                assert!(!s.test(i));
            }
        },
        Some(found) => {
            assert!(found >= lower_bound);
            assert!(s.test(found));
            for i in lower_bound..found {
                assert!(!s.test(i));
            }
        },
    }
}

#[test]
fn leaf_search_contract() {
    let x: u8 = 0b0100_0100;
    for lb in 0..10 {
        check_search_contract(&x, lb, 16);
    }
    assert_eq!(x.find_first_set(0), Some(2));
    assert_eq!(x.find_first_set(3), Some(6));
    assert_eq!(x.find_first_set(7), None);
    let y: u64 = (1 << 40) | (1 << 3);
    assert_eq!(y.find_first_set(0), Some(3));
    assert_eq!(y.find_first_set(4), Some(40));
    assert_eq!(y.find_first_set(41), None);
}

#[test]
fn union_search_takes_minimum() {
    let u = Union(0b1000_0000u8, 0b0010_0000u8);
    assert_eq!(u.find_first_set(0), Some(5));
    assert_eq!(u.find_first_set(6), Some(7));
    assert_eq!(u.find_first_set(8), None);
    for lb in 0..10 {
        check_search_contract(&u, lb, 16);
    }
}

#[test]
fn intersection_search_advances_to_common_bit() {
    let x = Intersection(0b0110_1010u8, 0b1100_0110u8);
    assert_eq!(x.find_first_set(0), Some(1));
    assert_eq!(x.find_first_set(2), Some(6));
    assert_eq!(x.find_first_set(7), None);
    let empty = Intersection(0b0101u8, 0b1010u8);
    assert_eq!(empty.find_first_set(0), None);
    for lb in 0..10 {
        check_search_contract(&x, lb, 16);
    }
}

#[test]
fn difference_search_skips_removed_bits() {
    let d = Difference(0b0110_1010u8, 0b0000_1010u8);
    assert_eq!(d.find_first_set(0), Some(5));
    assert_eq!(d.find_first_set(6), Some(6));
    assert_eq!(d.find_first_set(7), None);
    for lb in 0..10 {
        check_search_contract(&d, lb, 16);
    }
}

#[test]
fn double_complement_search_delegates() {
    let x: u8 = 0b0001_1000;
    let cc = Complement(Complement(x));
    assert_eq!(cc.find_first_set(0), Some(3));
    assert_eq!(cc.find_first_set(4), Some(4));
    assert_eq!(cc.find_first_set(5), None);
}

#[test]
fn search_in_range_respects_bounds() {
    let x: u8 = 0b0100_0100;
    assert_eq!(x.find_set_in_range(0..3), Some(2));
    assert_eq!(x.find_set_in_range(3..6), None);
    assert_eq!(x.find_set_in_range(3..7), Some(6));
    assert_eq!(x.find_set_in_range(0..0), None);
}

#[test]
fn layered_search_contract_sampled() {
    let mut l: Layered<u8, u8, 8> = BitEmpty::empty();
    for idx in [0usize, 7, 8, 20, 21, 40, 63] {
        l.set(idx);
    }
    for lb in 0..70 {
        check_search_contract(&l, lb, 70);
    }
}

#[test]
fn composite_of_layered_search() {
    let mut a: Layered<u8, u8, 8> = BitEmpty::empty();
    let mut b: Layered<u8, u8, 8> = BitEmpty::empty();
    a.set(10);
    a.set(30);
    b.set(30);
    b.set(50);
    let u = Union(a, b);
    assert_eq!(u.find_first_set(0), Some(10));
    assert_eq!(u.find_first_set(11), Some(30));
    assert_eq!(u.find_first_set(31), Some(50));
    assert_eq!(u.find_first_set(51), None);
    let x = Intersection(u.0.clone(), u.1.clone());
    assert_eq!(x.find_first_set(0), Some(30));
    assert_eq!(x.find_first_set(31), None);
    let d = Difference(u.0, u.1);
    assert_eq!(d.find_first_set(0), Some(10));
    assert_eq!(d.find_first_set(11), None);
}
