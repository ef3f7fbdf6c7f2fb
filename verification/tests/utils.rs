use std::cell::Cell;
use std::mem;
use std::sync::atomic::AtomicUsize;

use liblumen_alloc::utils::{
    align_down_to, align_up_to, align_up_to_multiple_of, divide_round_up, effective_alignment,
    good_alloc_size, is_aligned_at, is_power_of_two, round_down_to_alignment,
    round_up_to_alignment, round_up_to_multiple_of,
};

#[allow(dead_code)]
pub struct Example {
    ptr: &'static u8,
    refc: AtomicUsize,
}

#[test]
fn good_alloc_size_test() {
    assert_eq!(good_alloc_size::<usize>(), 8);
    assert_eq!(good_alloc_size::<Cell<usize>>(), 8);
    assert_eq!(good_alloc_size::<Example>(), 16);
}

#[test]
fn round_up_to_multiple_of_test() {
    assert_eq!(round_up_to_multiple_of(10, 11), 11);
    assert_eq!(round_up_to_multiple_of(11, 11), 11);
    assert_eq!(round_up_to_multiple_of(12, 11), 22);
    assert_eq!(round_up_to_multiple_of(118, 11), 121);
}

#[test]
fn round_up_to_alignment_test() {
    assert_eq!(round_up_to_alignment(10, 4), 12);
    assert_eq!(round_up_to_alignment(11, 2), 12);
    assert_eq!(round_up_to_alignment(12, 8), 16);
    assert_eq!(round_up_to_alignment(118, 64), 128);
}

#[test]
fn round_down_to_alignment_test() {
    assert_eq!(round_down_to_alignment(10, 4), 8);
    assert_eq!(round_down_to_alignment(11, 2), 10);
    assert_eq!(round_down_to_alignment(12, 8), 8);
    assert_eq!(round_down_to_alignment(63, 64), 0);
}

#[test]
fn align_up_to_test() {
    let x: usize = 8;
    let y: usize = 16;
    assert_eq!(align_up_to(x, 16), y);

    let x: usize = 16;
    let y: usize = 16;
    assert_eq!(align_up_to(x, 16), y);
}

#[test]
fn align_down_to_test() {
    let x: usize = 16;
    let y: usize = 16;
    assert_eq!(align_down_to(x, 16), y);

    let x: usize = 14;
    let y: usize = 8;
    assert_eq!(align_down_to(x, 8), y);
}

#[test]
fn align_up_to_multiple_of_test() {
    let x: usize = 8;
    let y: usize = 4096;
    assert_eq!(align_up_to_multiple_of(x, 4096), y);
}

#[test]
fn is_aligned_at_test() {
    let x: usize = 4096;
    assert!(is_aligned_at(x, 8));
    assert!(is_aligned_at(x, 16));
    assert!(is_aligned_at(x, 4096));
    let y: usize = 4092;
    assert!(is_aligned_at(y, 4));
    assert!(!is_aligned_at(y, 8));
}

#[test]
fn effective_alignment_test() {
    // An address that is a multiple of the word size and of nothing larger.
    let addr: usize = mem::align_of::<usize>() * 5;
    assert_eq!(effective_alignment(addr), mem::align_of::<usize>());

    let max: usize = 1usize << mem::size_of::<usize>() * 8 - 1;
    assert_eq!(effective_alignment(max), max);
}

#[test]
fn divide_round_up_rounds_up() {
    assert_eq!(divide_round_up(0, 8), 0);
    assert_eq!(divide_round_up(1, 8), 1);
    assert_eq!(divide_round_up(8, 8), 1);
    assert_eq!(divide_round_up(9, 8), 2);
    assert_eq!(divide_round_up(usize::MAX, 1), usize::MAX);
}

#[test]
fn round_up_keeps_multiples_and_reaches_the_next() {
    for base in 1..20usize {
        for size in 0..100usize {
            let rounded = round_up_to_multiple_of(size, base);
            assert_eq!(rounded % base, 0);
            assert!(size <= rounded && rounded < size + base);
        }
    }
}

#[test]
fn is_power_of_two_agrees_with_std() {
    for n in 0..1025usize {
        assert_eq!(is_power_of_two(n), n.is_power_of_two());
    }
    assert!(is_power_of_two(1usize << (usize::BITS - 1)));
    assert!(!is_power_of_two(usize::MAX));
}

#[test]
fn effective_alignment_is_the_lowest_set_bit() {
    for addr in 1..4097usize {
        assert_eq!(effective_alignment(addr), 1usize << addr.trailing_zeros());
    }
}
