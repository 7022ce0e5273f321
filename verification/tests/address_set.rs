use strategy::address_set::AddressSet;
use strategy::primitives::Address;

fn addr(hi: u32, lo: u128) -> Address {
    Address { hi, lo }
}

#[test]
fn address_order_is_that_of_the_number() {
    assert!(addr(0, 1).less_than(&addr(0, 2)));
    assert!(!addr(0, 2).less_than(&addr(0, 1)));
    assert!(!addr(0, 2).less_than(&addr(0, 2)));
    assert!(addr(0, u128::MAX).less_than(&addr(1, 0)));
    assert!(!addr(1, 0).less_than(&addr(0, u128::MAX)));
    assert!(addr(1, 5).less_than(&addr(1, 6)));
}

#[test]
fn empty_set_has_nothing() {
    let set = AddressSet::new();
    assert_eq!(set.len(), 0);
    assert!(set.is_empty());
    assert!(!set.contains(addr(0, 0)));
    assert_eq!(set.search(addr(0, 0)), (0, false));
}

#[test]
fn insert_keeps_ascending_order() {
    let mut set = AddressSet::new();
    assert_eq!(set.insert(addr(0, 30)), (0, true));
    assert_eq!(set.insert(addr(0, 10)), (0, true));
    assert_eq!(set.insert(addr(0, 20)), (1, true));
    assert_eq!(set.insert(addr(1, 0)), (3, true));
    assert_eq!(set.len(), 4);
    assert!(!set.is_empty());
    assert_eq!(set.get(0), addr(0, 10));
    assert_eq!(set.get(1), addr(0, 20));
    assert_eq!(set.get(2), addr(0, 30));
    assert_eq!(set.get(3), addr(1, 0));
}

#[test]
fn insert_of_a_member_changes_nothing() {
    let mut set = AddressSet::new();
    set.insert(addr(0, 10));
    set.insert(addr(0, 20));
    assert_eq!(set.insert(addr(0, 20)), (1, false));
    assert_eq!(set.insert(addr(0, 10)), (0, false));
    assert_eq!(set.len(), 2);
    assert_eq!(set.get(0), addr(0, 10));
    assert_eq!(set.get(1), addr(0, 20));
}

#[test]
fn search_gives_rank_and_membership() {
    let mut set = AddressSet::new();
    for lo in [10u128, 20, 30, 40, 50] {
        set.insert(addr(0, lo));
    }
    assert_eq!(set.search(addr(0, 5)), (0, false));
    assert_eq!(set.search(addr(0, 10)), (0, true));
    assert_eq!(set.search(addr(0, 25)), (2, false));
    assert_eq!(set.search(addr(0, 30)), (2, true));
    assert_eq!(set.search(addr(0, 50)), (4, true));
    assert_eq!(set.search(addr(0, 51)), (5, false));
    assert_eq!(set.search(addr(7, 0)), (5, false));
    assert!(set.contains(addr(0, 40)));
    assert!(!set.contains(addr(0, 41)));
}

#[test]
fn sets_with_the_same_members_are_equal() {
    let mut one = AddressSet::new();
    let mut other = AddressSet::new();
    for lo in [3u128, 1, 2] {
        one.insert(addr(0, lo));
    }
    for lo in [2u128, 3, 1, 3] {
        other.insert(addr(0, lo));
    }
    assert_eq!(one, other);
}
