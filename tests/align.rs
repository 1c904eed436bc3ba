use rust_kernel::align_up;

#[test]
fn align_up_rounds_to_boundary() {
    assert_eq!(align_up(0, 8), 0);
    assert_eq!(align_up(1, 8), 8);
    assert_eq!(align_up(8, 8), 8);
    assert_eq!(align_up(9, 16), 16);
    assert_eq!(align_up(4097, 4096), 8192);
    assert_eq!(align_up(5, 1), 5);
}

#[test]
fn align_up_is_aligned_and_close() {
    let mut align: usize = 1;
    while align <= 1024 {
        for addr in 0..3000usize {
            let r = align_up(addr, align);
            assert_eq!(r % align, 0);
            assert!(r >= addr);
            assert!(r - addr < align);
        }
        align *= 2;
    }
}
