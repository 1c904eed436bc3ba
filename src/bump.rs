//! A monotonic allocator: it hands out memory by moving a cursor forward and
//! reclaims the whole region only once every allocation has been freed.
use vstd::prelude::*;
use crate::align::{align_up, align_up_spec, is_pow2, lemma_align_up_fits};

verus! {

/// The state of a bump allocator as plain numbers.
pub struct BumpModel {
    pub heap_start: int,
    pub heap_end: int,
    pub next: int,
    pub allocations: int,
}

impl BumpModel {
    /// The cursor lies within the heap, which lies within the address space.
    pub open spec fn wf(self) -> bool {
        &&& 0 <= self.heap_start <= self.next <= self.heap_end <= usize::MAX
        &&& 0 <= self.allocations
    }

    /// The state right after `init(start, size)`.
    pub open spec fn fresh(start: int, size: int) -> BumpModel {
        BumpModel { heap_start: start, heap_end: start + size, next: start, allocations: 0 }
    }

    /// Where an allocation of `size` bytes aligned to `align` would start, and
    /// whether it fits below the end of the heap.
    pub open spec fn allocate(self, size: int, align: int) -> (BumpModel, Option<int>) {
        let start = align_up_spec(self.next, align);
        if start + size <= self.heap_end {
            (BumpModel { next: start + size, allocations: self.allocations + 1, ..self }, Some(start))
        } else {
            (self, None)
        }
    }

    /// One allocation is freed; the last one to go resets the cursor.
    pub open spec fn deallocate(self) -> BumpModel {
        if self.allocations - 1 == 0 {
            BumpModel { next: self.heap_start, allocations: 0, ..self }
        } else {
            BumpModel { allocations: self.allocations - 1, ..self }
        }
    }

    /// `n` deallocations in a row.
    pub open spec fn deallocate_times(self, n: nat) -> BumpModel
        decreases n,
    {
        if n == 0 {
            self
        } else {
            self.deallocate().deallocate_times((n - 1) as nat)
        }
    }

    /// Serves each `(size, align)` request in order; the final state and the
    /// address (or failure) of each request.
    pub open spec fn allocate_all(self, reqs: Seq<(int, int)>) -> (BumpModel, Seq<Option<int>>)
        decreases reqs.len(),
    {
        if reqs.len() == 0 {
            (self, Seq::empty())
        } else {
            let (s1, r) = self.allocate(reqs[0].0, reqs[0].1);
            let (s2, rs) = s1.allocate_all(reqs.drop_first());
            (s2, seq![r] + rs)
        }
    }
}

/// Every request of the run is for a positive size with a power-of-two alignment.
pub open spec fn valid_requests(reqs: Seq<(int, int)>) -> bool {
    forall|i: int|
        0 <= i < reqs.len() ==> {
            &&& 0 < #[trigger] reqs[i].0 <= usize::MAX
            &&& 0 < reqs[i].1 <= usize::MAX
            &&& is_pow2(reqs[i].1 as usize)
        }
}

/// Every result of a run of requests is a success.
pub open spec fn all_succeed(results: Seq<Option<int>>) -> bool {
    forall|i: int| 0 <= i < results.len() ==> (#[trigger] results[i]) is Some
}

/// One allocation: on success it starts at or above the cursor, is aligned,
/// and the cursor moves to its end; the heap bounds never change.
proof fn lemma_allocate_step(m: BumpModel, size: int, align: int)
    requires
        m.wf(),
        0 <= size,
        0 < align <= usize::MAX,
        is_pow2(align as usize),
    ensures
        m.allocate(size, align).0.wf(),
        m.allocate(size, align).0.heap_start == m.heap_start,
        m.allocate(size, align).0.heap_end == m.heap_end,
        m.allocate(size, align).0.next >= m.next,
        m.allocate(size, align).1 is Some ==> {
            let a = m.allocate(size, align).1->0;
            &&& m.next <= a
            &&& a % align == 0
            &&& m.allocate(size, align).0.next == a + size
            &&& m.allocate(size, align).0.allocations == m.allocations + 1
        },
{
    lemma_align_up_fits(m.next as usize, align as usize);
    let x = m.next + align - 1;
    vstd::arithmetic::div_mod::lemma_mod_multiples_basic(x / align, align);
}

/// Over a run of valid requests, every success starts at or above the initial
/// cursor and is aligned; the heap bounds never change.
proof fn lemma_run_above(m: BumpModel, reqs: Seq<(int, int)>)
    requires
        m.wf(),
        valid_requests(reqs),
    ensures
        m.allocate_all(reqs).0.wf(),
        m.allocate_all(reqs).0.heap_start == m.heap_start,
        m.allocate_all(reqs).0.heap_end == m.heap_end,
        m.allocate_all(reqs).1.len() == reqs.len(),
        all_succeed(m.allocate_all(reqs).1) ==> m.allocate_all(reqs).0.allocations == m.allocations
            + reqs.len(),
        forall|i: int|
            0 <= i < reqs.len() && (#[trigger] m.allocate_all(reqs).1[i]) is Some ==> {
                &&& m.next <= m.allocate_all(reqs).1[i]->0
                &&& m.allocate_all(reqs).1[i]->0 % reqs[i].1 == 0
            },
    decreases reqs.len(),
{
    if reqs.len() > 0 {
        let (s1, r) = m.allocate(reqs[0].0, reqs[0].1);
        let rest = reqs.drop_first();
        assert(0 < reqs[0].0);
        lemma_allocate_step(m, reqs[0].0, reqs[0].1);
        assert forall|i: int| 0 <= i < rest.len() implies 0 < #[trigger] rest[i].0 <= usize::MAX
            && 0 < rest[i].1 <= usize::MAX && is_pow2(rest[i].1 as usize) by {
            assert(rest[i] == reqs[i + 1]);
        }
        lemma_run_above(s1, rest);
        let rs = s1.allocate_all(rest).1;
        let results = m.allocate_all(reqs).1;
        assert(results == seq![r] + rs);
        if all_succeed(results) {
            assert(results[0] is Some);
            assert forall|i: int| 0 <= i < rs.len() implies (#[trigger] rs[i]) is Some by {
                assert(results[i + 1] == rs[i]);
            }
        }
        assert forall|i: int|
            0 <= i < reqs.len() && (#[trigger] results[i]) is Some implies {
                &&& m.next <= results[i]->0
                &&& results[i]->0 % reqs[i].1 == 0
            } by {
            if i > 0 {
                assert(results[i] == rs[i - 1]);
                assert(rest[i - 1] == reqs[i]);
            }
        }
    }
}

/// Bump addresses strictly increase along any run of allocations of nonzero
/// size that all succeed, and each address is a multiple of its requested
/// alignment.
pub proof fn lemma_addresses_increase(m: BumpModel, reqs: Seq<(int, int)>)
    requires
        m.wf(),
        valid_requests(reqs),
        all_succeed(m.allocate_all(reqs).1),
    ensures
        m.allocate_all(reqs).1.len() == reqs.len(),
        forall|i: int, j: int|
            0 <= i < j < reqs.len() ==> (#[trigger] m.allocate_all(reqs).1[i])->0
                < (#[trigger] m.allocate_all(reqs).1[j])->0,
        forall|i: int|
            0 <= i < reqs.len() ==> (#[trigger] m.allocate_all(reqs).1[i])->0 % reqs[i].1 == 0,
    decreases reqs.len(),
{
    lemma_run_above(m, reqs);
    let results = m.allocate_all(reqs).1;
    if reqs.len() > 0 {
        let (s1, r) = m.allocate(reqs[0].0, reqs[0].1);
        let rest = reqs.drop_first();
        assert(0 < reqs[0].0);
        lemma_allocate_step(m, reqs[0].0, reqs[0].1);
        assert forall|i: int| 0 <= i < rest.len() implies 0 < #[trigger] rest[i].0 <= usize::MAX
            && 0 < rest[i].1 <= usize::MAX && is_pow2(rest[i].1 as usize) by {
            assert(rest[i] == reqs[i + 1]);
        }
        let rs = s1.allocate_all(rest).1;
        assert(results == seq![r] + rs);
        assert(results[0] is Some);
        assert forall|i: int| 0 <= i < rs.len() implies (#[trigger] rs[i]) is Some by {
            assert(results[i + 1] == rs[i]);
        }
        lemma_addresses_increase(s1, rest);
        lemma_run_above(s1, rest);
        assert forall|i: int, j: int| 0 <= i < j < reqs.len() implies (#[trigger] results[i])->0
            < (#[trigger] results[j])->0 by {
            assert(results[j] == rs[j - 1]);
            assert(rs[j - 1] is Some);
            if i > 0 {
                assert(results[i] == rs[i - 1]);
            }
        }
    }
}

/// Deallocating as many times as there are live allocations, in whatever
/// order they are freed, leaves none live and the bounds unchanged.
proof fn lemma_deallocate_all(m: BumpModel, n: nat)
    requires
        m.wf(),
        m.allocations == n,
    ensures
        m.deallocate_times(n).wf(),
        m.deallocate_times(n).allocations == 0,
        m.deallocate_times(n).heap_start == m.heap_start,
        m.deallocate_times(n).heap_end == m.heap_end,
        n > 0 ==> m.deallocate_times(n).next == m.heap_start,
    decreases n,
{
    if n > 0 {
        lemma_deallocate_all(m.deallocate(), (n - 1) as nat);
        if n > 1 {
            assert(m.deallocate().deallocate_times((n - 1) as nat).next == m.heap_start);
        }
    }
}

/// After the allocations of any run that all succeeded have all been freed,
/// in any order, the next allocation that fits the heap starts exactly at the
/// heap start, when that start is a multiple of the requested alignment.
pub proof fn lemma_reset_after_all_freed(
    start: int,
    size: int,
    reqs: Seq<(int, int)>,
    req_size: int,
    req_align: int,
)
    requires
        0 <= start,
        0 <= size,
        start + size <= usize::MAX,
        valid_requests(reqs),
        all_succeed(BumpModel::fresh(start, size).allocate_all(reqs).1),
        0 <= req_size <= size,
        0 < req_align <= usize::MAX,
        is_pow2(req_align as usize),
        start % req_align == 0,
    ensures
        ({
            let live = BumpModel::fresh(start, size).allocate_all(reqs).0;
            let freed = live.deallocate_times(reqs.len());
            &&& live.allocations == reqs.len()
            &&& freed.allocations == 0
            &&& freed.next == start
            &&& freed.allocate(req_size, req_align).1 == Some(start)
        }),
{
    let m = BumpModel::fresh(start, size);
    lemma_run_above(m, reqs);
    let live = m.allocate_all(reqs).0;
    lemma_deallocate_all(live, reqs.len());
    if reqs.len() == 0 {
        assert(live == m);
    }
    let k = start / req_align;
    vstd::arithmetic::div_mod::lemma_fundamental_div_mod(start, req_align);
    vstd::arithmetic::div_mod::lemma_fundamental_div_mod_converse(
        start + req_align - 1,
        req_align,
        k,
        req_align - 1,
    );
}

/// While an earlier allocation is still live, freeing the latest one does not
/// make its space available again: the next allocation starts no lower than
/// the freed one did.
pub proof fn lemma_no_reuse_while_live(
    m: BumpModel,
    size_a: int,
    align_a: int,
    size_b: int,
    align_b: int,
    size_c: int,
    align_c: int,
)
    requires
        m.wf(),
        0 <= size_a && 0 <= size_b && 0 <= size_c,
        0 < align_a <= usize::MAX && is_pow2(align_a as usize),
        0 < align_b <= usize::MAX && is_pow2(align_b as usize),
        0 < align_c <= usize::MAX && is_pow2(align_c as usize),
        m.allocate(size_a, align_a).1 is Some,
        m.allocate(size_a, align_a).0.allocate(size_b, align_b).1 is Some,
    ensures
        ({
            let after_b = m.allocate(size_a, align_a).0.allocate(size_b, align_b);
            let after_c = after_b.0.deallocate().allocate(size_c, align_c);
            after_c.1 is Some ==> after_c.1->0 >= after_b.1->0
        }),
{
    let m1 = m.allocate(size_a, align_a).0;
    lemma_allocate_step(m, size_a, align_a);
    lemma_allocate_step(m1, size_b, align_b);
    let m3 = m1.allocate(size_b, align_b).0.deallocate();
    lemma_allocate_step(m3, size_c, align_c);
}

/// A bump allocator over `[heap_start, heap_end)`.
pub struct BumpAllocator {
    heap_start: usize,
    heap_end: usize,
    next: usize,
    allocations: usize,
}

impl View for BumpAllocator {
    type V = BumpModel;

    closed spec fn view(&self) -> BumpModel {
        BumpModel {
            heap_start: self.heap_start as int,
            heap_end: self.heap_end as int,
            next: self.next as int,
            allocations: self.allocations as int,
        }
    }
}

impl BumpAllocator {
    /// An allocator over the empty heap at address zero; `init` gives it its region.
    pub fn new() -> (r: BumpAllocator)
        ensures
            r@ == BumpModel::fresh(0, 0),
    {
        BumpAllocator { heap_start: 0, heap_end: 0, next: 0, allocations: 0 }
    }

    /// Hands the allocator the region `[heap_start, heap_start + heap_size)`.
    pub fn init(&mut self, heap_start: usize, heap_size: usize)
        requires
            heap_start + heap_size <= usize::MAX,
        ensures
            final(self)@ == BumpModel::fresh(heap_start as int, heap_size as int),
    {
        self.heap_start = heap_start;
        self.heap_end = heap_start + heap_size;
        self.next = heap_start;
        self.allocations = 0;
    }

    /// Allocates `size` bytes aligned to `align`: the address, or `None` when
    /// the heap has no room left above the cursor.
    pub fn allocate(&mut self, size: usize, align: usize) -> (r: Option<usize>)
        requires
            old(self)@.wf(),
            is_pow2(align),
            old(self)@.allocations < usize::MAX,
        ensures
            final(self)@.wf(),
            final(self)@ == old(self)@.allocate(size as int, align as int).0,
            old(self)@.allocate(size as int, align as int).1 == match r {
                Some(a) => Some(a as int),
                None => None,
            },
    {
        if align - 1 > usize::MAX - self.next {
            // rounding up would pass the end of the address space, hence the heap
            proof {
                crate::align::lemma_align_up_fits(self.next, align);
            }
            return None;
        }
        let start: usize = align_up(self.next, align);
        if start > self.heap_end || size > self.heap_end - start {
            return None;
        }
        self.next = start + size;
        self.allocations = self.allocations + 1;
        Some(start)
    }

    /// Frees one allocation. Once none is left the cursor goes back to the
    /// start of the heap.
    pub fn deallocate(&mut self, addr: usize, size: usize, align: usize)
        requires
            old(self)@.wf(),
            old(self)@.allocations > 0,
        ensures
            final(self)@.wf(),
            final(self)@ == old(self)@.deallocate(),
    {
        self.allocations = self.allocations - 1;
        if self.allocations == 0 {
            self.next = self.heap_start;
        }
    }
}

} // verus!
