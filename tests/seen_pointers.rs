use profile_mem::seen::SeenPointers;

#[test]
fn first_sighting_is_new_then_seen() {
    let mut t = SeenPointers::new();
    assert!(!t.was_seen(0x1000));
    assert!(t.was_seen(0x1000));
    assert!(!t.was_seen(0x2000));
    assert!(t.was_seen(0x1000));
    assert!(t.was_seen(0x2000));
}

#[test]
fn reset_starts_a_new_pass() {
    let mut t = SeenPointers::new();
    assert!(!t.was_seen(0x1000));
    assert!(t.was_seen(0x1000));
    t.reset();
    assert!(!t.was_seen(0x1000));
    assert!(t.was_seen(0x1000));
}

#[test]
fn shared_allocation_counted_once() {
    let mut t = SeenPointers::new();
    let owner1 = vec![(0x5000usize, 64usize)];
    let owner2 = vec![(0x5000usize, 64usize)];
    let total = t.charge(&owner1) + t.charge(&owner2);
    assert_eq!(total, 64);
}

#[test]
fn charge_sums_distinct_allocations() {
    let mut t = SeenPointers::new();
    let allocs = vec![(0x10usize, 8usize), (0x20, 16), (0x10, 8), (0x30, 32), (0x20, 16)];
    assert_eq!(t.charge(&allocs), 56);
    assert!(t.was_seen(0x30));
    assert_eq!(t.charge(&vec![(0x30usize, 32usize), (0x40, 4)]), 4);
}

#[test]
fn charge_after_reset_counts_again() {
    let mut t = SeenPointers::new();
    let allocs = vec![(0x10usize, 8usize)];
    assert_eq!(t.charge(&allocs), 8);
    assert_eq!(t.charge(&allocs), 0);
    t.reset();
    assert_eq!(t.charge(&allocs), 8);
}

#[test]
fn charge_of_nothing_is_zero() {
    let mut t = SeenPointers::new();
    assert_eq!(t.charge(&Vec::new()), 0);
    assert!(!t.was_seen(0));
}
