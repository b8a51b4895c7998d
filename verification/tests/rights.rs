use tyrne::cap::rights::KNOWN_BITS;
use tyrne::cap::CapRights;

#[test]
fn empty_contains_empty_but_nothing_else() {
    assert!(CapRights::empty().contains(CapRights::empty()));
    assert!(!CapRights::empty().contains(CapRights::duplicate()));
    assert!(CapRights::empty().is_empty());
}

#[test]
fn union_and_contains() {
    let rw = CapRights::duplicate() | CapRights::derive();
    assert!(rw.contains(CapRights::duplicate()));
    assert!(rw.contains(CapRights::derive()));
    assert!(!rw.contains(CapRights::revoke()));
    assert!(rw.contains(CapRights::empty()));
}

#[test]
fn intersection_narrows() {
    let all = CapRights::duplicate() | CapRights::derive() | CapRights::revoke();
    let just_dup = all & CapRights::duplicate();
    assert!(just_dup.contains(CapRights::duplicate()));
    assert!(!just_dup.contains(CapRights::derive()));
    assert!(!just_dup.contains(CapRights::revoke()));
}

#[test]
fn difference_clears_bits() {
    let rwx = CapRights::duplicate() | CapRights::derive();
    let just_derive = rwx.difference(CapRights::duplicate());
    assert!(just_derive.contains(CapRights::derive()));
    assert!(!just_derive.contains(CapRights::duplicate()));
}

#[test]
fn from_raw_and_raw_round_trip() {
    let bits = 0b1011;
    let rights = CapRights::from_raw(bits);
    assert_eq!(rights.raw(), bits);
}

#[test]
fn from_raw_masks_unknown_bits() {
    let rights = CapRights::from_raw(0x8000_0000 | CapRights::duplicate().raw());
    assert!(rights.contains(CapRights::duplicate()));
    assert_eq!(rights.raw() & !CapRights::known().raw(), 0);
    assert!(CapRights::from_raw(0x8000_0000).is_empty());
}

#[test]
fn bitor_assign_adds_bits() {
    let mut rights = CapRights::duplicate();
    rights |= CapRights::revoke();
    assert!(rights.contains(CapRights::duplicate()));
    assert!(rights.contains(CapRights::revoke()));
}

// Laws on concrete values.

#[test]
fn contains_is_reflexive_and_transitive() {
    let a = CapRights::duplicate() | CapRights::derive() | CapRights::revoke();
    let b = CapRights::duplicate() | CapRights::derive();
    let c = CapRights::derive();
    assert!(a.contains(a));
    assert!(a.contains(b) && b.contains(c) && a.contains(c));
}

#[test]
fn set_operations_bound_their_operands() {
    let a = CapRights::send() | CapRights::transfer();
    let b = CapRights::transfer() | CapRights::recv();
    let u = a.union(b);
    let i = a.intersection(b);
    let d = a.difference(b);
    assert!(u.contains(a) && u.contains(b));
    assert!(a.contains(i) && b.contains(i));
    assert_eq!(i.raw(), CapRights::transfer().raw());
    assert!(a.contains(d));
    assert_eq!(d.raw() & b.raw(), 0);
    assert_eq!(d.raw(), CapRights::send().raw());
}

#[test]
fn named_rights_have_their_bits() {
    assert_eq!(CapRights::duplicate().raw(), 1);
    assert_eq!(CapRights::derive().raw(), 2);
    assert_eq!(CapRights::revoke().raw(), 4);
    assert_eq!(CapRights::transfer().raw(), 8);
    assert_eq!(CapRights::send().raw(), 16);
    assert_eq!(CapRights::recv().raw(), 32);
    assert_eq!(CapRights::notify().raw(), 64);
    assert_eq!(CapRights::known().raw(), KNOWN_BITS);
}

#[test]
fn from_raw_of_all_bits_is_known() {
    let r = CapRights::from_raw(u32::MAX);
    assert_eq!(r.raw(), KNOWN_BITS);
    assert!(!CapRights::from_raw(0).contains(CapRights::notify()));
}
