use shin::rangealloc::{RangeAlloc, RangeAllocError};

#[test]
fn allocate() {
    let mut ra = RangeAlloc::new(0..100 as u32);
    let _ = ra.allocate(10);
    assert_eq!(ra.free_ranges(), &[10..100]);
}

#[test]
fn deallocate_right() {
    // right
    let mut ra = RangeAlloc::from_parts(0..100 as u32, vec![5..10]).unwrap();
    ra.deallocate(10..20);
    assert_eq!(ra.free_ranges(), &[5..20]);
}

#[test]
fn deallocate_left() {
    // left
    let mut ra = RangeAlloc::from_parts(0..100 as u32, vec![20..96]).unwrap();
    ra.deallocate(10..20);
    assert_eq!(ra.free_ranges(), &[10..96]);
}

#[test]
fn deallocate_defragment() {
    let mut ra = RangeAlloc::new(0..100 as u32);

    let _ = ra.allocate(10).unwrap();
    let r1 = ra.allocate(20).unwrap();
    let r2 = ra.allocate(30).unwrap();

    ra.deallocate(r1);
    ra.deallocate(r2);

    assert_eq!(ra.free_ranges(), &[10..100]);
}

#[test]
fn allocate_full_range() {
    let mut ra = RangeAlloc::new(0..100 as u32);
    assert_eq!(ra.allocate(100), Ok(0..100));
    assert!(ra.free_ranges().is_empty());
}

#[test]
fn allocate_out_of_bounds() {
    let mut ra = RangeAlloc::new(0..100 as u32);
    assert!(ra.allocate(101).is_err());
}

#[test]
fn allocate_exhausted() {
    let mut ra = RangeAlloc::new(0..100 as u32);
    assert_eq!(ra.allocate(100), Ok(0..100));
    assert_eq!(ra.allocate(1), Err(RangeAllocError));
}

#[test]
fn grow_extends_last_free_range() {
    let mut ra = RangeAlloc::new(0..100 as u32);

    let _ = ra.allocate(50).unwrap();
    assert_eq!(ra.free_ranges(), &[50..100]);

    ra.grow(150);
    assert_eq!(ra.free_ranges(), &[50..150]);
    assert_eq!(ra.full_range(), &(0..150));
}

#[test]
fn grow_adds_new_free_range() {
    let mut ra = RangeAlloc::new(0..100 as u32);

    let _ = ra.allocate(100).unwrap();
    assert!(ra.free_ranges().is_empty());

    ra.grow(200);
    assert_eq!(ra.free_ranges(), &[100..200]);
    assert_eq!(ra.full_range(), &(0..200));
}

// ---- further scenarios

#[test]
fn best_fit_prefers_smallest_fitting_range() {
    let ra = RangeAlloc::from_parts(0..100 as u32, vec![0..50, 60..70, 80..85, 90..100]).unwrap();
    let best = ra.find_best_fit(8).unwrap();
    assert_eq!(best.range, 60..70);
    assert_eq!(best.chosen_range(), &(60..70));
    // the first of two equally small ranges wins
    let best = ra.find_best_fit(10).unwrap();
    assert_eq!(best.range, 60..70);
    assert!(ra.find_best_fit(51).is_none());
    assert!(ra.find_best_fit(101).is_none());
}

#[test]
fn allocate_best_fit_carves_front() {
    let mut ra = RangeAlloc::from_parts(0..100 as u32, vec![0..50, 60..70]).unwrap();
    assert_eq!(ra.allocate(4), Ok(60..64));
    assert_eq!(ra.free_ranges(), &[0..50, 64..70]);
    assert_eq!(ra.allocate(6), Ok(64..70));
    assert_eq!(ra.free_ranges(), &[0..50]);
}

#[test]
fn deallocate_restores_free_ranges() {
    let mut ra = RangeAlloc::new(0..100 as usize);
    let r = ra.allocate(30).unwrap();
    ra.deallocate(r);
    assert_eq!(ra.free_ranges(), &[0..100]);
    assert!(ra.is_empty());
}

#[test]
fn deallocate_sorts_and_merges() {
    let mut ra = RangeAlloc::from_parts(0..100 as u64, vec![70..80, 10..20]).unwrap();
    ra.deallocate(40..50);
    assert_eq!(ra.free_ranges(), &[10..20, 40..50, 70..80]);
    ra.deallocate(20..40);
    assert_eq!(ra.free_ranges(), &[10..50, 70..80]);
}

#[test]
fn clear_and_is_empty() {
    let mut ra = RangeAlloc::new(0..100 as u32);
    assert!(ra.is_empty());
    let _ = ra.allocate(10).unwrap();
    assert!(!ra.is_empty());
    ra.clear();
    assert!(ra.is_empty());
    assert_eq!(ra.free_ranges(), &[0..100]);
}

#[test]
fn from_parts_rejects_out_of_bounds_ranges() {
    assert!(RangeAlloc::from_parts(0..100 as u32, vec![90..101]).is_none());
    assert!(RangeAlloc::from_parts(0..100 as u32, vec![20..10]).is_none());
    assert!(RangeAlloc::from_parts(10..5 as u32, vec![]).is_none());
}

#[test]
fn error_message() {
    assert_eq!(RangeAllocError.message(), "range allocation failed");
}

#[test]
fn returning_every_allocation_empties_the_allocator() {
    let mut ra = RangeAlloc::new(0..100 as u32);
    let a = ra.allocate(10).unwrap();
    let b = ra.allocate(25).unwrap();
    let c = ra.allocate(5).unwrap();
    assert!(!ra.is_empty());
    ra.deallocate(b);
    assert_eq!(ra.free_ranges(), &[10..35, 40..100]);
    ra.deallocate(a);
    assert_eq!(ra.free_ranges(), &[0..35, 40..100]);
    ra.deallocate(c);
    assert_eq!(ra.free_ranges(), &[0..100]);
    assert!(ra.is_empty());
}
