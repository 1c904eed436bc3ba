//! The kernel heap's fixed virtual region and the pages that back it.
use vstd::prelude::*;

verus! {

/// Virtual address of the first byte of the kernel heap.
pub const HEAP_START: u64 = 0x_4444_4444_0000;

/// Length of the kernel heap in bytes (100 KiB).
pub const HEAP_SIZE: u64 = 102400;

/// Size of one page of virtual memory.
pub const PAGE_SIZE: u64 = 4096;

/// Start of the page that holds `addr`.
pub open spec fn page_of(addr: int) -> int {
    addr - addr % (PAGE_SIZE as int)
}

/// Start of the page that holds `addr`.
pub fn page_containing(addr: u64) -> (r: u64)
    ensures
        r == page_of(addr as int),
{
    addr - addr % PAGE_SIZE
}

/// The start of every page that holds a byte of `[start, start + size - 1]`,
/// in ascending order: each of these must be mapped before the heap is used.
pub fn heap_pages(start: u64, size: u64) -> (r: Vec<u64>)
    requires
        size > 0,
        start + size - 1 <= u64::MAX,
    ensures
        r@.len() == (page_of(start + size - 1) - page_of(start as int)) / (PAGE_SIZE as int) + 1,
        forall|k: int| 0 <= k < r@.len() ==> #[trigger] r@[k] == page_of(start as int) + k * PAGE_SIZE,
{
    let first: u64 = page_containing(start);
    let last: u64 = page_containing(start + (size - 1));
    proof {
        vstd::arithmetic::div_mod::lemma_fundamental_div_mod(start as int, PAGE_SIZE as int);
        vstd::arithmetic::div_mod::lemma_fundamental_div_mod(
            start + size - 1,
            PAGE_SIZE as int,
        );
        vstd::arithmetic::div_mod::lemma_mod_multiples_basic(start as int / 4096, 4096);
        vstd::arithmetic::div_mod::lemma_mod_multiples_basic((start + size - 1) / 4096, 4096);
        assert((last - first) % 4096 == 0) by {
            vstd::arithmetic::div_mod::lemma_sub_mod_noop(last as int, first as int, 4096);
        }
        vstd::arithmetic::div_mod::lemma_fundamental_div_mod((last - first) as int, 4096);
    }
    let mut pages: Vec<u64> = Vec::new();
    let mut page: u64 = first;
    while page <= last
        invariant
            first == page_of(start as int),
            last == page_of(start + size - 1),
            first <= page,
            first <= last,
            (page - first) % 4096 == 0,
            (last - first) % 4096 == 0,
            page <= last + 4096,
            pages@.len() == (page - first) / 4096,
            forall|k: int| 0 <= k < pages@.len() ==> #[trigger] pages@[k] == first + k * PAGE_SIZE,
        decreases last + 4096 - page,
    {
        let ghost len = pages@.len();
        proof {
            vstd::arithmetic::div_mod::lemma_fundamental_div_mod((page - first) as int, 4096);
            assert(page == first + len * PAGE_SIZE) by (nonlinear_arith)
                requires
                    page - first == 4096 * ((page - first) / 4096) + (page - first) % 4096,
                    (page - first) % 4096 == 0,
                    len == (page - first) / 4096,
                    PAGE_SIZE == 4096,
            ;
        }
        pages.push(page);
        assert(pages@[len as int] == first + len * PAGE_SIZE);
        if last - page < PAGE_SIZE {
            proof {
                vstd::arithmetic::div_mod::lemma_fundamental_div_mod((last - first) as int, 4096);
                assert(page == last) by (nonlinear_arith)
                    requires
                        page - first == 4096 * ((page - first) / 4096),
                        last - first == 4096 * ((last - first) / 4096),
                        page <= last,
                        last - page < 4096,
                ;
            }
            return pages;
        }
        proof {
            vstd::arithmetic::div_mod::lemma_fundamental_div_mod_converse(
                (page + 4096 - first) as int,
                4096,
                (page - first) / 4096 + 1,
                0,
            );
        }
        page = page + PAGE_SIZE;
    }
    pages
}

} // verus!
