use particle_sim::flags::{ObjectFlags, REMOVE_NEXT_BIT};

#[test]
fn empty_has_no_flag() {
    let e = ObjectFlags::empty();
    assert!(e.is_empty());
    assert_eq!(e.bits(), 0);
    assert!(!e.contains(ObjectFlags::remove_next()));
}

#[test]
fn remove_next_is_bit_zero() {
    let r = ObjectFlags::remove_next();
    assert_eq!(r.bits(), REMOVE_NEXT_BIT);
    assert_eq!(r.bits(), 1);
    assert!(r.contains(r));
    assert!(!r.is_empty());
}

#[test]
fn contains_checks_every_bit() {
    let a = ObjectFlags::from_bits_retain(0b0101);
    assert!(a.contains(ObjectFlags::from_bits_retain(0b0001)));
    assert!(a.contains(ObjectFlags::from_bits_retain(0b0100)));
    assert!(!a.contains(ObjectFlags::from_bits_retain(0b0011)));
    assert!(a.contains(ObjectFlags::empty()));
}

#[test]
fn intersects_needs_a_shared_bit() {
    let a = ObjectFlags::from_bits_retain(0b0101);
    assert!(a.intersects(ObjectFlags::from_bits_retain(0b0011)));
    assert!(!a.intersects(ObjectFlags::from_bits_retain(0b1010)));
}

#[test]
fn union_and_insert_or_the_bits() {
    let a = ObjectFlags::from_bits_retain(0b0101);
    let b = ObjectFlags::from_bits_retain(0b0011);
    assert_eq!(a.union(b).bits(), 0b0111);
    let mut c = a;
    c.insert(b);
    assert_eq!(c, a.union(b));
    assert!(c.contains(a) && c.contains(b));
}

#[test]
fn difference_and_remove_clear_bits() {
    let a = ObjectFlags::from_bits_retain(0b0111);
    let b = ObjectFlags::from_bits_retain(0b0010);
    assert_eq!(a.difference(b).bits(), 0b0101);
    let mut c = a;
    c.remove(b);
    assert_eq!(c.bits(), 0b0101);
    assert!(!c.intersects(b));
}

#[test]
fn difference_with_itself_is_empty() {
    for bits in 0..=255u8 {
        let f = ObjectFlags::from_bits_retain(bits);
        assert!(f.difference(f).is_empty());
    }
}

#[test]
fn inserting_twice_is_inserting_once() {
    let mut a = ObjectFlags::from_bits_retain(0b1000);
    a.insert(ObjectFlags::remove_next());
    let once = a;
    a.insert(ObjectFlags::remove_next());
    assert_eq!(a, once);
    assert_eq!(a.bits(), 0b1001);
}
