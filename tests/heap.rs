use rust_kernel::heap::{page_containing, PAGE_SIZE};
use rust_kernel::{heap_pages, HEAP_SIZE, HEAP_START};

#[test]
fn heap_pages_cover_the_kernel_heap() {
    let pages = heap_pages(HEAP_START, HEAP_SIZE);
    assert_eq!(pages.len(), 25);
    assert_eq!(pages[0], HEAP_START);
    assert_eq!(pages[24], HEAP_START + 24 * PAGE_SIZE);
    for w in pages.windows(2) {
        assert_eq!(w[1] - w[0], PAGE_SIZE);
    }
}

#[test]
fn heap_pages_of_unaligned_range() {
    assert_eq!(heap_pages(4095, 2), vec![0, 4096]);
    assert_eq!(heap_pages(4096, 1), vec![4096]);
    assert_eq!(heap_pages(4096, 4097), vec![4096, 8192]);
    assert_eq!(page_containing(8191), 4096);
    assert_eq!(page_containing(8192), 8192);
}
