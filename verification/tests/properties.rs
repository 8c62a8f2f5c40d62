use std::hash::{Hash, Hasher};

use metalgear::{checked_range, page_aligned, round_up, Bound, GPUVar, GPUVec, MemAlign, PAGE_SIZE};

struct Eighteen {
    bytes: [u8; 18],
}

#[test]
fn round_up_edges() {
    assert_eq!(round_up(0, 4096), 0);
    assert_eq!(round_up(7, 1), 7);
    assert_eq!(round_up(10, 3), 12);
    assert_eq!(round_up(12, 3), 12);
    assert_eq!(round_up(usize::MAX, 1), usize::MAX);
}

#[test]
fn round_up_is_idempotent() {
    let once = round_up(4097, 4096);
    assert_eq!(once, 8192);
    assert_eq!(round_up(once, 4096), once);
}

#[test]
fn page_aligned_values() {
    assert_eq!(PAGE_SIZE, 4096);
    assert_eq!(page_aligned(0), 0);
    assert_eq!(page_aligned(1), 4096);
    assert_eq!(page_aligned(8192), 8192);
    assert_eq!(page_aligned(8193), 12288);
}

#[test]
fn mem_align_plan_for_odd_sized_elements() {
    let plan = MemAlign::<Eighteen>::new(10);
    assert_eq!(plan.byte_size, 4096);
    assert_eq!(plan.remainder, 10);
    assert_eq!(plan.capacity, 227);
    assert!(plan.is_valid());
    assert_eq!(MemAlign::<Eighteen>::element_size(), 18);
    assert_eq!(Eighteen { bytes: [1; 18] }.bytes.len(), 18);
}

#[test]
fn mem_align_plan_for_exact_pages() {
    let plan = MemAlign::<u64>::new(1000);
    assert_eq!(plan.byte_size, 8192);
    assert_eq!(plan.remainder, 0);
    assert_eq!(plan.capacity, 1024);
    assert!(plan.is_valid());
    let copy = plan.clone();
    assert!(copy == plan);
}

#[test]
fn mem_align_is_valid_detects_mismatch() {
    let mut plan = MemAlign::<u32>::new(1);
    assert!(plan.is_valid());
    plan.remainder = 1;
    assert!(!plan.is_valid());
}

#[test]
fn with_capacity_plans_whole_pages() {
    let v: GPUVec<u32> = GPUVec::with_capacity(10);
    assert_eq!(v.len(), 0);
    assert!(v.is_empty());
    assert_eq!(v.capacity(), 10);
    assert_eq!(v.buffer_length(), 4096);
    assert_eq!(v.byte_capacity(), 40);
    assert_eq!(v.byte_len(), 0);

    let big: GPUVec<u64> = GPUVec::with_capacity(1025);
    assert_eq!(big.buffer_length(), 12288);

    let none: GPUVec<u64> = GPUVec::with_capacity(0);
    assert_eq!(none.buffer_length(), 0);
}

#[test]
fn reserve_and_resize() {
    let mut v: GPUVec<u32> = GPUVec::with_capacity(10);
    v.reserve(5);
    assert_eq!(v.capacity(), 15);
    v.reserve(0);
    assert_eq!(v.capacity(), 15);
    v.resize(3);
    assert_eq!(v.capacity(), 15);
    v.resize(2000);
    assert_eq!(v.capacity(), 2000);
    assert_eq!(v.buffer_length(), 8192);
}

#[test]
fn push_grows_a_full_buffer_by_one_slot() {
    let mut v = GPUVec::from_slice(&[1u32, 2]);
    assert_eq!(v.capacity(), 2);
    v.push(3);
    assert_eq!(v.capacity(), 3);
    assert_eq!(v.as_slice(), &[1, 2, 3]);
    assert_eq!(v.byte_len(), 12);
    v.truncate(1);
    v.push(9);
    assert_eq!(v.capacity(), 3);
    assert_eq!(v.as_slice(), &[1, 9]);
}

#[test]
fn extend_from_slice_grows_to_exact_length() {
    let mut v = GPUVec::from_slice(&[1u8, 2, 3]);
    v.extend_from_slice(&[4, 5]);
    assert_eq!(v.capacity(), 5);
    assert_eq!(v.as_slice(), &[1, 2, 3, 4, 5]);
    v.truncate(2);
    v.extend_from_slice(&[6]);
    assert_eq!(v.capacity(), 5);
    assert_eq!(v.as_slice(), &[1, 2, 6]);
}

#[test]
fn truncate_longer_changes_nothing() {
    let mut v = GPUVec::from_slice(&[1, 2, 3]);
    v.truncate(10);
    assert_eq!(v.as_slice(), &[1, 2, 3]);
    v.truncate(3);
    assert_eq!(v.as_slice(), &[1, 2, 3]);
    v.truncate(0);
    assert!(v.is_empty());
    assert_eq!(v.capacity(), 3);
}

#[test]
fn insert_then_remove_restores() {
    let mut v = GPUVec::from_slice(&[5, 6, 7]);
    v.insert(1, 42);
    assert_eq!(v.as_slice(), &[5, 42, 6, 7]);
    assert_eq!(v.capacity(), 4);
    assert_eq!(v.remove(1), 42);
    assert_eq!(v.as_slice(), &[5, 6, 7]);
    v.insert(3, 8);
    assert_eq!(v.as_slice(), &[5, 6, 7, 8]);
    v.insert(0, 4);
    assert_eq!(v.as_slice(), &[4, 5, 6, 7, 8]);
}

#[test]
fn push_then_swap_remove_last_restores() {
    let mut v = GPUVec::from_slice(&[1, 2, 3]);
    v.push(10);
    assert_eq!(v.swap_remove(3), 10);
    assert_eq!(v.as_slice(), &[1, 2, 3]);
    assert_eq!(v.swap_remove(0), 1);
    assert_eq!(v.as_slice(), &[3, 2]);
}

#[test]
fn split_off_then_extend_restores() {
    let mut v = GPUVec::from_slice(&[1, 2, 3, 4, 5]);
    let tail = v.split_off(2);
    assert_eq!(v.as_slice(), &[1, 2]);
    assert_eq!(tail.as_slice(), &[3, 4, 5]);
    assert_eq!(tail.capacity(), 3);
    assert_eq!(v.capacity(), 5);
    v.extend_from_slice(tail.as_slice());
    assert_eq!(v.as_slice(), &[1, 2, 3, 4, 5]);
    let empty = v.split_off(5);
    assert!(empty.is_empty());
    assert_eq!(empty.capacity(), 0);
}

#[test]
fn drain_middle_keeps_the_tail() {
    let mut v = GPUVec::from_slice(&[1, 2, 3, 4, 5]);
    let drained = v.drain(Bound::Included(1), Bound::Excluded(3));
    assert_eq!(drained, vec![2, 3]);
    assert_eq!(v.as_slice(), &[1, 4, 5]);
    assert_eq!(v.capacity(), 5);

    let mut w = GPUVec::from_slice(&[1, 2, 3, 4, 5]);
    let d = w.drain(Bound::Excluded(0), Bound::Included(1));
    assert_eq!(d, vec![2]);
    assert_eq!(w.as_slice(), &[1, 3, 4, 5]);
}

#[test]
fn drain_then_splice_back_restores() {
    let mut v = GPUVec::from_slice(&[1, 2, 3, 4, 5]);
    let drained = v.drain(Bound::Included(1), Bound::Excluded(4));
    let nothing = v.splice(Bound::Included(1), Bound::Excluded(1), &drained);
    assert!(nothing.is_empty());
    assert_eq!(v.as_slice(), &[1, 2, 3, 4, 5]);
}

#[test]
fn splice_grows_to_exact_length() {
    let mut v = GPUVec::from_slice(&[1, 2, 3]);
    let removed = v.splice(Bound::Included(1), Bound::Excluded(2), &[7, 8, 9]);
    assert_eq!(removed, vec![2]);
    assert_eq!(v.as_slice(), &[1, 7, 8, 9, 3]);
    assert_eq!(v.capacity(), 5);
}

#[test]
fn retain_all_or_nothing() {
    let mut v = GPUVec::from_slice(&[3, 1, 2]);
    v.retain(|_| true);
    assert_eq!(v.as_slice(), &[3, 1, 2]);
    v.retain(|x| *x > 1);
    assert_eq!(v.as_slice(), &[3, 2]);
    v.retain(|_| false);
    assert!(v.is_empty());
    assert_eq!(v.capacity(), 3);
}

#[test]
fn pop_on_empty_is_none() {
    let mut v: GPUVec<u8> = GPUVec::with_capacity(4);
    assert_eq!(v.pop(), None);
    assert!(v.is_empty());
}

#[test]
fn remove_item_takes_the_first_match() {
    let mut v = GPUVec::from_slice(&[1, 2, 3, 1]);
    assert_eq!(v.remove_item(&1), Some(1));
    assert_eq!(v.as_slice(), &[2, 3, 1]);
    assert_eq!(v.remove_item(&7), None);
    assert_eq!(v.as_slice(), &[2, 3, 1]);
}

#[test]
fn equality_needs_equal_length_and_elements() {
    let a = GPUVec::from_slice(&[1, 2]);
    let b = GPUVec::from_slice(&[1, 2, 3]);
    let c = GPUVec::with_capacity(9);
    let mut d = c.clone();
    assert!(a != b);
    d.extend_from_slice(&[1, 2]);
    assert!(a == d);
    assert!(c.is_empty());
}

#[test]
fn clone_has_capacity_of_its_length() {
    let mut v: GPUVec<i32> = GPUVec::with_capacity(50);
    v.push(4);
    let c = v.clone();
    assert_eq!(c.capacity(), 1);
    assert_eq!(c.as_slice(), &[4]);
    assert_eq!(c.buffer_length(), 4096);
}

#[test]
fn mutable_slice_writes_through() {
    let mut v = GPUVec::from_slice(&[1, 2, 3]);
    v.as_mut_slice()[1] = 20;
    assert_eq!(v.as_slice(), &[1, 20, 3]);
    assert_eq!(v.into_iter().collect::<Vec<_>>(), vec![1, 20, 3]);
}

#[test]
fn gpu_var_holds_and_clones_its_value() {
    let mut var = GPUVar::with_value(5u64);
    assert_eq!(GPUVar::<u64>::element_size(), 8);
    assert_eq!(var.mem_align().byte_size, 4096);
    assert_eq!(var.mem_align().capacity, 512);
    assert_eq!(var.mem_align().remainder, 0);
    assert_eq!(GPUVar::with_value([1u8; 3]).mem_align().remainder, 1);
    let copy = var.clone();
    *var = 6;
    assert_eq!(*var, 6);
    assert_eq!(*copy, 5);
}

#[test]
fn allocation_check_matches_page_planning() {
    assert!(metalgear::is_allocatable::<u64>(1000));
    assert!(metalgear::is_allocatable::<u64>(0));
    assert!(metalgear::is_allocatable::<()>(usize::MAX));
    assert!(!metalgear::is_allocatable::<u64>(usize::MAX));
    let limit = usize::MAX / 4096 * 4096;
    assert!(metalgear::is_allocatable::<u8>(limit));
    assert!(!metalgear::is_allocatable::<u8>(limit + 1));
}

#[test]
fn range_check_resolves_or_refuses() {
    assert_eq!(checked_range(Bound::Included(1), Bound::Unbounded, 3), Some((1, 3)));
    assert_eq!(checked_range(Bound::Excluded(0), Bound::Included(1), 3), Some((1, 2)));
    assert_eq!(checked_range(Bound::Unbounded, Bound::Excluded(0), 0), Some((0, 0)));
    assert_eq!(checked_range(Bound::Included(2), Bound::Excluded(1), 3), None);
    assert_eq!(checked_range(Bound::Unbounded, Bound::Included(3), 3), None);
    assert_eq!(checked_range(Bound::Excluded(usize::MAX), Bound::Unbounded, 3), None);
    assert_eq!(checked_range(Bound::Unbounded, Bound::Included(usize::MAX), 3), None);
}

#[test]
fn vectors_order_lexicographically() {
    let a = GPUVec::from_slice(&[1, 2, 3]);
    let b = GPUVec::from_slice(&[1, 2, 4]);
    let c = GPUVec::from_slice(&[1, 2]);
    assert!(a < b);
    assert!(c < a);
    assert!(b > c);
    assert_eq!(a.partial_cmp(&a.clone()), Some(std::cmp::Ordering::Equal));
    let x = GPUVec::from_slice(&[1.0f64, f64::NAN]);
    let y = GPUVec::from_slice(&[1.0f64, 2.0]);
    assert_eq!(x.partial_cmp(&y), None);
}

#[test]
fn equal_vectors_hash_alike_whatever_their_capacity() {
    let a = GPUVec::from_slice(&[5u32, 6]);
    let mut b: GPUVec<u32> = GPUVec::with_capacity(40);
    b.push(5);
    b.push(6);
    let mut ha = std::collections::hash_map::DefaultHasher::new();
    let mut hb = std::collections::hash_map::DefaultHasher::new();
    a.hash(&mut ha);
    b.hash(&mut hb);
    assert_eq!(ha.finish(), hb.finish());
}
