use rust_kernel::BumpAllocator;

fn bump_over(start: usize, size: usize) -> BumpAllocator {
    let mut a = BumpAllocator::new();
    a.init(start, size);
    a
}

#[test]
fn bump_addresses_strictly_increase() {
    let mut a = bump_over(0x1000, 1024);
    let reqs = [(3usize, 1usize), (8, 8), (1, 2), (16, 16)];
    let expected = [0x1000usize, 0x1008, 0x1010, 0x1020];
    let mut last: Option<usize> = None;
    for (k, (size, align)) in reqs.iter().enumerate() {
        let addr = a.allocate(*size, *align).unwrap();
        assert_eq!(addr, expected[k]);
        assert_eq!(addr % align, 0);
        if let Some(prev) = last {
            assert!(addr > prev);
        }
        last = Some(addr);
    }
}

#[test]
fn bump_reset_after_all_freed() {
    let mut a = bump_over(0x2000, 256);
    let x = a.allocate(4, 4).unwrap();
    let y = a.allocate(8, 8).unwrap();
    let z = a.allocate(2, 2).unwrap();
    let w = a.allocate(16, 16).unwrap();
    assert_eq!(x, 0x2000);
    a.deallocate(z, 2, 2);
    a.deallocate(x, 4, 4);
    a.deallocate(w, 16, 16);
    assert_eq!(a.allocate(1, 1), Some(0x2000 + 48));
    a.deallocate(0x2000 + 48, 1, 1);
    a.deallocate(y, 8, 8);
    assert_eq!(a.allocate(32, 8), Some(0x2000));
}

#[test]
fn bump_no_reuse_while_live() {
    let mut a = bump_over(0x3000, 256);
    let first = a.allocate(8, 8).unwrap();
    let second = a.allocate(8, 8).unwrap();
    a.deallocate(second, 8, 8);
    let third = a.allocate(8, 8).unwrap();
    assert!(third >= second);
    assert_eq!(third, second + 8);
    assert!(first < second);
}

#[test]
fn bump_out_of_memory() {
    let mut a = bump_over(0x4000, 64);
    assert_eq!(a.allocate(65, 1), None);
    assert_eq!(a.allocate(64, 1), Some(0x4000));
    assert_eq!(a.allocate(1, 1), None);
    assert_eq!(a.allocate(0, 1), Some(0x4040));
}

#[test]
fn bump_padding_counts_against_the_end() {
    let mut a = bump_over(0x5001, 32);
    assert_eq!(a.allocate(24, 16), None);
    assert_eq!(a.allocate(17, 16), Some(0x5010));
}

#[test]
fn bump_new_allocator_has_no_room() {
    let mut a = BumpAllocator::new();
    assert_eq!(a.allocate(1, 1), None);
    assert_eq!(a.allocate(0, 1), Some(0));
}

#[test]
fn bump_alignment_past_address_space_fails() {
    let mut a = bump_over(usize::MAX - 10, 10);
    assert_eq!(a.allocate(1, 16), None);
    assert_eq!(a.allocate(1, 1), Some(usize::MAX - 10));
}
