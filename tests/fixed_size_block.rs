use std::collections::BTreeSet;
use std::mem::MaybeUninit;

use rust_kernel::fixed_size_block::block_size;
use rust_kernel::{list_index, FixedSizeBlockAllocator, Source};

fn region(len: usize, align: usize) -> &'static mut [MaybeUninit<u8>] {
    let buf: &'static mut [MaybeUninit<u8>] =
        Box::leak(vec![MaybeUninit::<u8>::uninit(); len + align].into_boxed_slice());
    let base = buf.as_ptr() as usize;
    let offset = (align - base % align) % align;
    &mut buf[offset..offset + len]
}

fn allocator_over(len: usize, align: usize) -> (FixedSizeBlockAllocator, usize) {
    let mem = region(len, align);
    let base = mem.as_ptr() as usize;
    let mut a = FixedSizeBlockAllocator::new();
    a.init(mem);
    (a, base)
}

#[test]
fn list_index_boundary() {
    assert_eq!(list_index(2048, 1), Some(8));
    assert_eq!(list_index(2049, 1), None);
    assert_eq!(list_index(1, 1), Some(0));
    assert_eq!(list_index(8, 8), Some(0));
    assert_eq!(list_index(9, 1), Some(1));
    assert_eq!(list_index(10, 1), Some(1));
    assert_eq!(list_index(3, 64), Some(3));
    assert_eq!(list_index(1, 4096), None);
    assert_eq!(list_index(0, 1), Some(0));
}

#[test]
fn block_sizes_double_from_eight() {
    let expected = [8usize, 16, 32, 64, 128, 256, 512, 1024, 2048];
    for (i, size) in expected.iter().enumerate() {
        assert_eq!(block_size(i), *size);
    }
}

#[test]
fn freed_block_is_reused_first() {
    let (mut a, _) = allocator_over(4096, 4096);
    assert_eq!(a.source(10, 1), Source::Fallback { size: 16, align: 16 });
    let first = a.allocate(10, 1).unwrap();
    assert_eq!(first % 16, 0);
    assert!(!a.is_free_block(first));
    assert!(a.deallocate(first, 10, 1));
    assert!(a.is_free_block(first));
    assert_eq!(a.free_blocks(1), 1);
    assert_eq!(a.source(14, 2), Source::FreeList { index: 1 });
    assert_eq!(a.allocate(14, 2), Some(first));
    assert_eq!(a.free_blocks(1), 0);
    assert!(!a.is_free_block(first));
}

#[test]
fn oversized_request_bypasses_classes() {
    let (mut a, _) = allocator_over(8192, 4096);
    assert_eq!(a.source(3000, 8), Source::Fallback { size: 3000, align: 8 });
    let big = a.allocate(3000, 8).unwrap();
    assert_eq!(big % 8, 0);
    assert!(!a.deallocate(big, 3000, 8));
    for i in 0..9 {
        assert_eq!(a.free_blocks(i), 0);
    }
    let small = a.allocate(2048, 8).unwrap();
    assert_ne!(small, big);
}

#[test]
fn fallback_block_is_aligned_to_its_class() {
    let (mut a, base) = allocator_over(4096, 4096);
    let first = a.allocate(20, 1).unwrap();
    let second = a.allocate(20, 1).unwrap();
    assert_eq!(first, base);
    assert_eq!(second % 32, 0);
    assert_ne!(first, second);
}

#[test]
fn new_allocator_without_memory_fails() {
    let mut a = FixedSizeBlockAllocator::new();
    assert_eq!(a.source(8, 8), Source::Fallback { size: 8, align: 8 });
    assert_eq!(a.allocate(8, 8), None);
    assert_eq!(a.allocate(5000, 8), None);
}

#[test]
fn two_callers_keep_free_list_count() {
    let (a, _) = allocator_over(64 * 1024, 4096);
    let shared = spin::Mutex::new(a);
    let mut held: [Vec<usize>; 2] = [Vec::new(), Vec::new()];
    let mut seen: BTreeSet<usize> = BTreeSet::new();
    for step in 0..4000usize {
        let caller = step % 2;
        let grow = (step / 7) % 3 != 0;
        let mut guard = shared.lock();
        if grow || held[caller].is_empty() {
            let addr = guard.allocate(24, 8).unwrap();
            assert_eq!(addr % 32, 0);
            assert!(!held[0].contains(&addr) && !held[1].contains(&addr));
            seen.insert(addr);
            held[caller].push(addr);
        } else {
            let addr = held[caller].pop().unwrap();
            assert!(guard.deallocate(addr, 24, 8));
        }
        let live = held[0].len() + held[1].len();
        assert_eq!(guard.free_blocks(2) + live, seen.len());
    }
    let mut guard = shared.lock();
    for caller in 0..2 {
        while let Some(addr) = held[caller].pop() {
            assert!(guard.deallocate(addr, 24, 8));
        }
    }
    assert_eq!(guard.free_blocks(2), seen.len());
    for i in 0..9 {
        if i != 2 {
            assert_eq!(guard.free_blocks(i), 0);
        }
    }
}

#[test]
fn small_heap_runs_out() {
    let (mut a, base) = allocator_over(1024, 512);
    let first = a.allocate(500, 4).unwrap();
    let second = a.allocate(500, 4).unwrap();
    assert_eq!(first, base);
    assert_eq!(second, base + 512);
    assert_eq!(a.allocate(500, 4), None);
}

#[test]
fn fallback_block_on_a_free_list_is_refused() {
    let (mut a, _) = allocator_over(4096, 4096);
    let block = a.allocate(64, 64).unwrap();
    assert_eq!(a.accept_fallback(Some(block)), Some(block));
    assert!(a.deallocate(block, 64, 64));
    assert_eq!(a.accept_fallback(Some(block)), None);
    assert_eq!(a.accept_fallback(Some(block + 64)), Some(block + 64));
    assert_eq!(a.accept_fallback(None), None);
}
