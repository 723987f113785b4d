use bitsetium::BitEmpty;
use bitsetium::BitSearch;
use bitsetium::BitSet;
use bitsetium::BitSetLimit;
use bitsetium::BitTest;
use bitsetium::BitTestNone;
use bitsetium::BitUnset;
use bitsetium::Bits262144;
use bitsetium::Bits32768;
use bitsetium::Bits4096;
use bitsetium::Bits512;
use bitsetium::Layered;

#[test]
fn layered_round_trip() {
    let mut l: Layered<u8, u8, 8> = BitEmpty::empty();
    l.set(20);
    assert!(l.test(20));
    l.unset(20);
    assert!(!l.test(20));
    assert_eq!(l.find_first_set(0), None);
}

#[test]
fn layered_unset_clears_top_for_search() {
    let mut l: Layered<u8, u8, 8> = BitEmpty::empty();
    l.set(20);
    l.set(50);
    assert_eq!(l.find_first_set(0), Some(20));
    l.unset(20);
    assert_eq!(l.find_first_set(0), Some(50));
    l.unset(50);
    assert_eq!(l.find_first_set(0), None);
}

#[test]
fn layered_limits() {
    assert_eq!(Layered::<u8, u8, 8>::max_set_index(), 63);
    assert_eq!(Bits512::max_set_index(), 511);
    assert_eq!(Bits4096::max_set_index(), 4095);
    assert_eq!(Bits32768::max_set_index(), 32767);
}

#[test]
fn layered_highest_index_round_trip() {
    let mut l: Layered<u8, u8, 8> = BitEmpty::empty();
    l.set(63);
    assert!(l.test(63));
    assert_eq!(l.find_first_set(0), Some(63));
    assert_eq!(l.find_first_set(63), Some(63));
    assert!(!l.test(64));
    assert_eq!(l.find_first_set(64), None);
}

#[test]
fn layered_search_within_and_across_segments() {
    let mut l: Bits512 = BitEmpty::empty();
    l.set(9);
    l.set(12);
    l.set(200);
    assert_eq!(l.find_first_set(0), Some(9));
    assert_eq!(l.find_first_set(10), Some(12));
    assert_eq!(l.find_first_set(13), Some(200));
    assert_eq!(l.find_first_set(200), Some(200));
    assert_eq!(l.find_first_set(201), None);
}

#[test]
fn optional_slot_allocates_and_releases() {
    let mut o: Option<u8> = BitEmpty::empty();
    assert!(o.is_none());
    assert!(o.test_none());
    o.set(3);
    assert_eq!(o, Some(0b1000));
    assert!(o.test(3));
    o.unset(3);
    assert!(o.is_none());
}

#[test]
fn deep_layered_round_trip() {
    let mut big: Bits32768 = BitEmpty::empty();
    assert_eq!(big.find_first_set(0), None);
    big.set(12345);
    assert!(big.test(12345));
    assert!(!big.test(12344));
    assert_eq!(big.find_first_set(0), Some(12345));
    assert_eq!(big.find_first_set(12346), None);
    big.set(0);
    big.set(32767);
    assert_eq!(big.find_first_set(0), Some(0));
    assert_eq!(big.find_first_set(1), Some(12345));
    assert_eq!(big.find_first_set(12346), Some(32767));
    big.unset(12345);
    assert_eq!(big.find_first_set(1), Some(32767));
}

#[test]
fn wider_leaves_round_trip() {
    let mut a: u16 = 0;
    a.set(12);
    assert_eq!(a, 1 << 12);
    assert_eq!(a.find_first_set(0), Some(12));
    let mut b: u32 = 0;
    b.set(29);
    assert_eq!(b.find_first_set(0), Some(29));
    b.unset(29);
    assert!(b.test_none());
    let mut c: u128 = 0;
    c.set(100);
    assert!(c.test(100));
    assert_eq!(c.find_first_set(0), Some(100));
    assert_eq!(c.find_first_set(101), None);
}

#[test]
fn mixed_width_layers() {
    let mut l: bitsetium::Bits256 = BitEmpty::empty();
    l.set(255);
    l.set(17);
    assert_eq!(l.find_first_set(0), Some(17));
    assert_eq!(l.find_first_set(18), Some(255));
    let mut w: bitsetium::Bits16384 = BitEmpty::empty();
    w.set(16383);
    assert!(w.test(16383));
    assert_eq!(w.find_first_set(0), Some(16383));
}

#[test]
fn deeper_layered_round_trip() {
    let mut big: Bits262144 = BitEmpty::empty();
    big.set(100_000);
    assert!(big.test(100_000));
    assert_eq!(big.find_first_set(0), Some(100_000));
    big.unset(100_000);
    assert_eq!(big.find_first_set(0), None);
}

#[test]
fn triply_nested_layered_round_trip() {
    let mut big: bitsetium::Bits2097152 = BitEmpty::empty();
    big.set(2_000_000);
    big.set(3);
    assert!(big.test(2_000_000));
    assert_eq!(big.find_first_set(0), Some(3));
    assert_eq!(big.find_first_set(4), Some(2_000_000));
    big.unset(3);
    assert_eq!(big.find_first_set(0), Some(2_000_000));
}
