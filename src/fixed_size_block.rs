//! An allocator with one free list per power-of-two size class, backed by a
//! first-fit heap for blocks it has never seen and for oversized requests.
use vstd::prelude::*;
use core::mem::MaybeUninit;
use linked_list_allocator::Heap;
use crate::align::is_pow2;
use vstd::multiset::Multiset;

verus! {

#[verifier::external_type_specification]
#[verifier::external_body]
pub struct ExHeap(linked_list_allocator::Heap);

/// The number of bytes a fallback heap manages, as `Heap::size` reports it.
pub uninterp spec fn heap_capacity(h: linked_list_allocator::Heap) -> nat;

/// The address just past the memory a fallback heap owns, as `Heap::top`
/// reports it.
pub uninterp spec fn heap_top(h: linked_list_allocator::Heap) -> nat;

/// Relies on linked_list_allocator::Heap::top: the end of the heap's memory as
/// an address.
#[verifier::external_body]
fn read_heap_top(heap: &Heap) -> (r: usize)
    ensures
        r == heap_top(*heap),
{
    heap.top() as usize
}

/// Relies on linked_list_allocator::Heap::empty: a heap with no memory, on
/// which every allocation fails.
pub assume_specification[ linked_list_allocator::Heap::empty ]() -> (r: linked_list_allocator::Heap)
    ensures
        heap_capacity(r) == 0,
;

/// Relies on linked_list_allocator::Heap::from_slice: a heap over the given
/// memory. It panics when the slice cannot hold the heap's metadata, which
/// takes at most three machine words; a slice that can leaves the heap at
/// least one hole of two words.
pub assume_specification[ linked_list_allocator::Heap::from_slice ](
    mem: &'static mut [MaybeUninit<u8>],
) -> (r: linked_list_allocator::Heap)
    requires
        mem@.len() >= MIN_HEAP_SIZE,
    ensures
        heap_capacity(r) > 0,
;

/// Relies on linked_list_allocator::Heap::allocate_first_fit: a block it hands
/// out starts at a nonzero address that is a multiple of the requested
/// alignment. A size and alignment that do not form a valid layout get `None`,
/// as does every request to a heap without memory. The heap's bounds, and so
/// its capacity and top, stay as they were. The search rounds hole addresses
/// up to `align` and steps past hole headers without overflow checks, so the
/// top of the heap needs that much room below the end of the address space.
#[verifier::external_body]
fn fallback_allocate(heap: &mut Heap, size: usize, align: usize) -> (r: Option<usize>)
    requires
        heap_top(*old(heap)) + align + SEARCH_MARGIN <= usize::MAX,
    ensures
        heap_top(*final(heap)) == heap_top(*old(heap)),
        r matches Some(a) ==> a != 0 && a % align == 0,
        heap_capacity(*final(heap)) == heap_capacity(*old(heap)),
        heap_capacity(*old(heap)) == 0 ==> r is None,
{
    match core::alloc::Layout::from_size_align(size, align) {
        Ok(layout) => heap.allocate_first_fit(layout).ok().map(|p| p.as_ptr() as usize),
        Err(_) => None,
    }
}

/// The number of size classes.
pub const NUM_CLASSES: usize = 9;

/// The smallest region the fallback heap accepts: three 64-bit words.
pub const MIN_HEAP_SIZE: usize = 24;

/// How far past a hole's rounded-up address the fallback's search may reach:
/// a hole header of two words and the word alignment of the next one.
pub const SEARCH_MARGIN: usize = 24;

/// The byte size of each class, ascending; it is also the class's alignment.
/// The smallest holds one free-list link.
pub open spec fn block_sizes() -> Seq<usize> {
    seq![8, 16, 32, 64, 128, 256, 512, 1024, 2048]
}

/// The block size a request needs: its size, or its alignment if larger.
pub open spec fn required_size(size: usize, align: usize) -> usize {
    if size >= align { size } else { align }
}

/// An address aligned to a class is aligned to every power of two that the
/// class size covers.
proof fn lemma_class_alignment_covers(addr: usize, i: int, align: usize)
    requires
        0 <= i < NUM_CLASSES,
        is_pow2(align),
        align <= block_sizes()[i],
        addr % block_sizes()[i] == 0,
    ensures
        addr % align == 0,
{
    assert(align == 1 || align == 2 || align == 4 || align == 8 || align == 16 || align == 32
        || align == 64 || align == 128 || align == 256 || align == 512 || align == 1024 || align
        == 2048) by (bit_vector)
        requires
            align > 0,
            align & ((align - 1) as usize) == 0,
            align <= 2048,
    ;
    let bs = block_sizes()[i] as int;
    assert(bs == 8 || bs == 16 || bs == 32 || bs == 64 || bs == 128 || bs == 256 || bs == 512
        || bs == 1024 || bs == 2048);
    if align == 1 {
        assert(bs % 1 == 0);
    } else if align == 2 {
        assert(bs % 2 == 0);
    } else if align == 4 {
        assert(bs % 4 == 0);
    } else if align == 8 {
        assert(bs % 8 == 0);
    } else if align == 16 {
        assert(bs % 16 == 0);
    } else if align == 32 {
        assert(bs % 32 == 0);
    } else if align == 64 {
        assert(bs % 64 == 0);
    } else if align == 128 {
        assert(bs % 128 == 0);
    } else if align == 256 {
        assert(bs % 256 == 0);
    } else if align == 512 {
        assert(bs % 512 == 0);
    } else if align == 1024 {
        assert(bs % 1024 == 0);
    } else if align == 2048 {
        assert(bs % 2048 == 0);
    }
    vstd::arithmetic::div_mod::lemma_fundamental_div_mod(bs, align as int);
    vstd::arithmetic::div_mod::lemma_mod_mod(addr as int, align as int, bs / align as int);
}

/// The class that serves a request: the smallest whose size covers both the
/// size and the alignment, or none above the largest class.
pub open spec fn class_of(size: usize, align: usize) -> Option<int> {
    let req = required_size(size, align);
    if req <= 8 {
        Some(0)
    } else if req <= 16 {
        Some(1)
    } else if req <= 32 {
        Some(2)
    } else if req <= 64 {
        Some(3)
    } else if req <= 128 {
        Some(4)
    } else if req <= 256 {
        Some(5)
    } else if req <= 512 {
        Some(6)
    } else if req <= 1024 {
        Some(7)
    } else if req <= 2048 {
        Some(8)
    } else {
        None
    }
}

/// Where an allocation is served from.
#[derive(PartialEq, Eq, Structural, Debug, Clone, Copy)]
pub enum Source {
    /// The head of the free list of the class with this index.
    FreeList { index: usize },
    /// A fresh block of this size and alignment from the fallback heap.
    Fallback { size: usize, align: usize },
}

/// The free lists as sequences of block addresses; the last one is the head.
pub struct FixedModel {
    pub lists: Seq<Seq<usize>>,
}

impl FixedModel {
    /// One list per class, each holding nonzero addresses aligned to the class size.
    pub open spec fn wf(self) -> bool {
        &&& self.lists.len() == NUM_CLASSES
        &&& forall|i: int, j: int|
            0 <= i < NUM_CLASSES && 0 <= j < self.lists[i].len() ==> {
                &&& #[trigger] self.lists[i][j] != 0
                &&& self.lists[i][j] % block_sizes()[i] == 0
            }
    }

    /// `a` is the address of a block on one of the free lists.
    pub open spec fn on_lists(self, a: usize) -> bool {
        exists|i: int, j: int|
            0 <= i < self.lists.len() && 0 <= j < self.lists[i].len() && #[trigger] self.lists[i][j]
                == a
    }

    /// No block is on the free lists twice.
    pub open spec fn distinct(self) -> bool {
        forall|i1: int, j1: int, i2: int, j2: int|
            0 <= i1 < self.lists.len() && 0 <= j1 < self.lists[i1].len() && 0 <= i2
                < self.lists.len() && 0 <= j2 < self.lists[i2].len() && #[trigger] self.lists[i1][j1]
                == #[trigger] self.lists[i2][j2] ==> i1 == i2 && j1 == j2
    }

    /// Where a request is served from: the head of its class's list, one new
    /// block of the class from the fallback when that list is empty, or the
    /// request itself, unchanged, from the fallback when no class fits.
    pub open spec fn source(self, size: usize, align: usize) -> Source {
        match class_of(size, align) {
            Some(i) => if self.lists[i].len() > 0 {
                Source::FreeList { index: i as usize }
            } else {
                Source::Fallback { size: block_sizes()[i], align: block_sizes()[i] }
            },
            None => Source::Fallback { size, align },
        }
    }

    /// The lists after an allocation: the head of the class's list is gone
    /// when it came from there; otherwise they are unchanged.
    pub open spec fn allocated(self, size: usize, align: usize) -> FixedModel {
        match self.source(size, align) {
            Source::FreeList { index } => FixedModel {
                lists: self.lists.update(index as int, self.lists[index as int].drop_last()),
            },
            Source::Fallback { .. } => self,
        }
    }

    /// The lists after freeing `addr`: it heads its class's list; a block of
    /// no class leaves them unchanged.
    pub open spec fn deallocated(self, addr: usize, size: usize, align: usize) -> FixedModel {
        match class_of(size, align) {
            Some(i) => FixedModel { lists: self.lists.update(i, self.lists[i].push(addr)) },
            None => self,
        }
    }

    /// Runs a sequence of requests of one size and alignment, where `None`
    /// allocates and `Some(addr)` frees `addr`: the final lists and how many
    /// allocations the fallback served.
    pub open spec fn run(self, size: usize, align: usize, ops: Seq<Option<usize>>) -> (FixedModel, nat)
        decreases ops.len(),
    {
        if ops.len() == 0 {
            (self, 0)
        } else {
            let (next, fresh) = match ops[0] {
                None => (
                    self.allocated(size, align),
                    if self.source(size, align) is Fallback { 1nat } else { 0nat },
                ),
                Some(addr) => (self.deallocated(addr, size, align), 0nat),
            };
            let (last, n) = next.run(size, align, ops.drop_first());
            (last, n + fresh)
        }
    }
}

/// How many frees a sequence of requests holds.
pub open spec fn count_frees(ops: Seq<Option<usize>>) -> nat
    decreases ops.len(),
{
    if ops.len() == 0 {
        0
    } else {
        (if ops[0] is Some { 1nat } else { 0nat }) + count_frees(ops.drop_first())
    }
}

/// How many allocations a sequence of requests holds.
pub open spec fn count_allocations(ops: Seq<Option<usize>>) -> nat
    decreases ops.len(),
{
    if ops.len() == 0 {
        0
    } else {
        (if ops[0] is None { 1nat } else { 0nat }) + count_allocations(ops.drop_first())
    }
}

/// Allocation and deallocation keep the free lists well formed, the latter
/// when a block of a class is aligned to it and nonzero.
proof fn lemma_steps_keep_wf(m: FixedModel, addr: usize, size: usize, align: usize)
    requires
        m.wf(),
    ensures
        m.allocated(size, align).wf(),
        (class_of(size, align) matches Some(i) ==> addr != 0 && addr % block_sizes()[i] == 0)
            ==> m.deallocated(addr, size, align).wf(),
{
    let a = m.allocated(size, align);
    assert forall|i: int, j: int| 0 <= i < NUM_CLASSES && 0 <= j < a.lists[i].len() implies {
        &&& #[trigger] a.lists[i][j] != 0
        &&& a.lists[i][j] % block_sizes()[i] == 0
    } by {
        assert(a.lists[i][j] == m.lists[i][j]);
    }
    if let Some(k) = class_of(size, align) {
        if addr != 0 && addr % block_sizes()[k] == 0 {
            let d = m.deallocated(addr, size, align);
            assert forall|i: int, j: int| 0 <= i < NUM_CLASSES && 0 <= j < d.lists[i].len() implies {
                &&& #[trigger] d.lists[i][j] != 0
                &&& d.lists[i][j] % block_sizes()[i] == 0
            } by {
                if i != k || j < m.lists[i].len() {
                    assert(d.lists[i][j] == m.lists[i][j]);
                }
            }
        }
    }
}

/// A block freed in a class is the next one handed out to any request of
/// that class, and handing it out restores the lists as they were.
pub proof fn lemma_lifo_reuse(
    m: FixedModel,
    addr: usize,
    size1: usize,
    align1: usize,
    size2: usize,
    align2: usize,
)
    requires
        m.wf(),
        class_of(size1, align1) is Some,
        class_of(size2, align2) == class_of(size1, align1),
    ensures
        ({
            let i = class_of(size1, align1)->0;
            let freed = m.deallocated(addr, size1, align1);
            &&& freed.source(size2, align2) == (Source::FreeList { index: i as usize })
            &&& freed.lists[i].last() == addr
            &&& freed.allocated(size2, align2) == m
        }),
{
    let i = class_of(size1, align1)->0;
    let freed = m.deallocated(addr, size1, align1);
    assert(freed.lists[i].drop_last() =~= m.lists[i]);
    assert(freed.allocated(size2, align2).lists =~= m.lists);
}

/// A request above the largest class never touches the free lists: it goes
/// to the fallback unchanged, and freeing it leaves the lists as they are, so
/// its address never appears on any of them.
pub proof fn lemma_oversized_bypass(m: FixedModel, addr: usize, size: usize, align: usize)
    requires
        required_size(size, align) > 2048,
    ensures
        class_of(size, align) is None,
        m.source(size, align) == (Source::Fallback { size, align }),
        m.allocated(size, align) == m,
        m.deallocated(addr, size, align) == m,
{
}

/// Along any sequence of allocations and frees of one class, with each freed
/// address nonzero and aligned to the class, the lists stay well formed, the
/// other classes' lists are untouched, and the class's list grows by the
/// frees and the blocks that came from the fallback, less the allocations.
pub proof fn lemma_run_accounting(m: FixedModel, size: usize, align: usize, ops: Seq<Option<usize>>)
    requires
        m.wf(),
        class_of(size, align) is Some,
        forall|k: int|
            0 <= k < ops.len() && (#[trigger] ops[k]) is Some ==> ops[k]->0 != 0 && ops[k]->0
                % block_sizes()[class_of(size, align)->0] == 0,
    ensures
        ({
            let i = class_of(size, align)->0;
            let (last, fresh) = m.run(size, align, ops);
            &&& last.wf()
            &&& last.lists[i].len() + count_allocations(ops) == m.lists[i].len() + count_frees(ops)
                + fresh
            &&& forall|k: int| 0 <= k < NUM_CLASSES && k != i ==> (#[trigger] last.lists[k]) == m.lists[k]
        }),
    decreases ops.len(),
{
    if ops.len() > 0 {
        let i = class_of(size, align)->0;
        let rest = ops.drop_first();
        let addr = match ops[0] {
            Some(a) => a,
            None => 0usize,
        };
        if ops[0] is Some {
            assert(ops[0]->0 != 0);
        }
        lemma_steps_keep_wf(m, addr, size, align);
        assert forall|k: int| 0 <= k < rest.len() && (#[trigger] rest[k]) is Some implies rest[k]->0
            != 0 && rest[k]->0 % block_sizes()[i] == 0 by {
            assert(rest[k] == ops[k + 1]);
        }
        let next = match ops[0] {
            None => m.allocated(size, align),
            Some(a) => m.deallocated(a, size, align),
        };
        lemma_run_accounting(next, size, align, rest);
    }
}

/// Free lists per size class over a first-fit fallback heap. Each list keeps
/// the addresses of its free blocks as a stack, head last; the freed memory
/// itself is not written. The lists grow through the global allocator, so
/// this allocator cannot itself be the global allocator.
pub struct FixedSizeBlockAllocator {
    list_heads: Vec<Vec<usize>>,
    /// The heap that serves oversized requests and new blocks. A block that
    /// `deallocate` does not recycle must be handed back to it.
    pub fallback_allocator: Heap,
    /// The blocks handed out and not yet freed.
    live: Ghost<Multiset<usize>>,
}

impl View for FixedSizeBlockAllocator {
    type V = FixedModel;

    closed spec fn view(&self) -> FixedModel {
        FixedModel { lists: self.list_heads@.map_values(|l: Vec<usize>| l@) }
    }
}

/// The byte size of the class with this index.
pub fn block_size(index: usize) -> (r: usize)
    requires
        index < NUM_CLASSES,
    ensures
        r == block_sizes()[index as int],
{
    if index == 0 {
        8
    } else if index == 1 {
        16
    } else if index == 2 {
        32
    } else if index == 3 {
        64
    } else if index == 4 {
        128
    } else if index == 5 {
        256
    } else if index == 6 {
        512
    } else if index == 7 {
        1024
    } else {
        2048
    }
}

/// The index of the smallest class whose block size is at least both `size`
/// and `align`, or `None` when the request exceeds the largest class.
pub fn list_index(size: usize, align: usize) -> (r: Option<usize>)
    ensures
        r matches Some(i) ==> class_of(size, align) == Some(i as int),
        r is None ==> class_of(size, align) is None,
        r matches Some(i) ==> i < NUM_CLASSES && block_sizes()[i as int] >= size
            && block_sizes()[i as int] >= align && forall|j: int|
            0 <= j < i ==> (#[trigger] block_sizes()[j]) < required_size(size, align),
        r is None <==> required_size(size, align) > 2048,
{
    let required: usize = if size >= align { size } else { align };
    let mut i: usize = 0;
    while i < NUM_CLASSES
        invariant
            0 <= i <= NUM_CLASSES,
            required == required_size(size, align),
            forall|j: int| 0 <= j < i ==> (#[trigger] block_sizes()[j]) < required,
        decreases NUM_CLASSES - i,
    {
        if block_size(i) >= required {
            return Some(i);
        }
        i = i + 1;
    }
    assert(block_sizes()[8] < required);
    None
}

impl FixedSizeBlockAllocator {
    /// The fallback heap has been given memory.
    pub closed spec fn has_memory(&self) -> bool {
        heap_capacity(self.fallback_allocator) > 0
    }

    /// The blocks handed out by `allocate` and not yet freed, each as often
    /// as it was handed out.
    pub closed spec fn live_blocks(&self) -> Multiset<usize> {
        self.live@
    }

    /// The end of the fallback heap's memory.
    pub closed spec fn fallback_top(&self) -> nat {
        heap_top(self.fallback_allocator)
    }

    /// An allocator with empty free lists and a fallback heap with no memory.
    pub fn new() -> (r: FixedSizeBlockAllocator)
        ensures
            r@.wf(),
            r@.distinct(),
            forall|i: int| 0 <= i < NUM_CLASSES ==> (#[trigger] r@.lists[i]).len() == 0,
            !r.has_memory(),
            r.live_blocks() == Multiset::<usize>::empty(),
    {
        let mut list_heads: Vec<Vec<usize>> = Vec::new();
        let mut i: usize = 0;
        while i < NUM_CLASSES
            invariant
                0 <= i <= NUM_CLASSES,
                list_heads@.len() == i,
                forall|j: int| 0 <= j < i ==> (#[trigger] list_heads@[j])@.len() == 0,
            decreases NUM_CLASSES - i,
        {
            list_heads.push(Vec::new());
            i = i + 1;
        }
        FixedSizeBlockAllocator {
            list_heads,
            fallback_allocator: Heap::empty(),
            live: Ghost(Multiset::empty()),
        }
    }

    /// Gives the fallback heap its memory. The free lists are left as they are.
    pub fn init(&mut self, mem: &'static mut [MaybeUninit<u8>])
        requires
            old(self)@.wf(),
            mem@.len() >= MIN_HEAP_SIZE,
        ensures
            final(self)@ == old(self)@,
            final(self).has_memory(),
            final(self).live_blocks() == old(self).live_blocks(),
    {
        self.fallback_allocator = Heap::from_slice(mem);
    }

    /// How many free blocks the list of the class with this index holds.
    pub fn free_blocks(&self, index: usize) -> (r: usize)
        requires
            self@.wf(),
            index < NUM_CLASSES,
        ensures
            r == self@.lists[index as int].len(),
    {
        self.list_heads[index].len()
    }

    /// Whether the block at `addr` is on one of the free lists.
    pub fn is_free_block(&self, addr: usize) -> (r: bool)
        requires
            self@.wf(),
        ensures
            r == self@.on_lists(addr),
    {
        let mut i: usize = 0;
        while i < NUM_CLASSES
            invariant
                self@.wf(),
                0 <= i <= NUM_CLASSES,
                forall|k: int, j: int|
                    0 <= k < i && 0 <= j < self@.lists[k].len() ==> #[trigger] self@.lists[k][j] != addr,
            decreases NUM_CLASSES - i,
        {
            let list = &self.list_heads[i];
            assert(list@ == self@.lists[i as int]);
            let mut j: usize = 0;
            while j < list.len()
                invariant
                    self@.wf(),
                    0 <= i < NUM_CLASSES,
                    list@ == self@.lists[i as int],
                    0 <= j <= list@.len(),
                    forall|k: int, m: int|
                        0 <= k < i && 0 <= m < self@.lists[k].len() ==> #[trigger] self@.lists[k][m]
                            != addr,
                    forall|m: int| 0 <= m < j ==> #[trigger] self@.lists[i as int][m] != addr,
                decreases list@.len() - j,
            {
                if list[j] == addr {
                    assert(self@.lists[i as int][j as int] == addr);
                    return true;
                }
                j = j + 1;
            }
            i = i + 1;
        }
        false
    }

    /// What the fallback heap handed out, unless it is a block still on a free
    /// list, which is never handed out twice.
    pub fn accept_fallback(&self, got: Option<usize>) -> (r: Option<usize>)
        requires
            self@.wf(),
        ensures
            r == match got {
                Some(a) => if self@.on_lists(a) {
                    None
                } else {
                    Some(a)
                },
                None => None,
            },
    {
        match got {
            Some(a) => if self.is_free_block(a) {
                None
            } else {
                Some(a)
            },
            None => None,
        }
    }

    /// Where a request of `size` bytes aligned to `align` would be served from.
    pub fn source(&self, size: usize, align: usize) -> (r: Source)
        requires
            self@.wf(),
        ensures
            r == self@.source(size, align),
    {
        match list_index(size, align) {
            Some(index) => {
                if self.list_heads[index].len() > 0 {
                    Source::FreeList { index }
                } else {
                    let block: usize = block_size(index);
                    Source::Fallback { size: block, align: block }
                }
            },
            None => Source::Fallback { size, align },
        }
    }

    /// Allocates `size` bytes aligned to `align`: the head of the class's
    /// free list when it has one, else a block from the fallback heap, as
    /// `source` says; `None` when the fallback has no room, when its top lies
    /// too near the end of the address space to search it safely, or when it
    /// offers a block that is still on a free list (see `accept_fallback`). A
    /// block handed out is on no free list.
    pub fn allocate(&mut self, size: usize, align: usize) -> (r: Option<usize>)
        requires
            old(self)@.wf(),
            old(self)@.distinct(),
        ensures
            final(self)@.wf(),
            final(self)@.distinct(),
            final(self)@ == old(self)@.allocated(size, align),
            final(self).has_memory() == old(self).has_memory(),
            final(self).live_blocks() == match r {
                Some(a) => old(self).live_blocks().insert(a),
                None => old(self).live_blocks(),
            },
            final(self).fallback_top() == old(self).fallback_top(),
            old(self)@.source(size, align) matches Source::Fallback { align: block_align, .. }
                ==> (old(self).fallback_top() + block_align + SEARCH_MARGIN > usize::MAX ==> r is None),
            r matches Some(a) ==> !final(self)@.on_lists(a),
            !old(self).has_memory() && old(self)@.source(size, align) is Fallback ==> r is None,
            match old(self)@.source(size, align) {
                Source::FreeList { index } => r == Some(old(self)@.lists[index as int].last()),
                Source::Fallback { size: block_size, align: block_align } => r matches Some(a)
                    ==> a != 0 && a % block_align == 0,
            },
            is_pow2(align) ==> (r matches Some(a) ==> a != 0 && a % align == 0),
    {
        let ghost before = self@;
        match self.source(size, align) {
            Source::FreeList { index } => {
                let mut list = self.list_heads.remove(index);
                let head = list.pop();
                self.list_heads.insert(index, list);
                proof {
                    assert(self@.lists =~= before.lists.update(
                        index as int,
                        before.lists[index as int].drop_last(),
                    ));
                    assert forall|i: int, j: int|
                        0 <= i < NUM_CLASSES && 0 <= j < self@.lists[i].len() implies {
                            &&& #[trigger] self@.lists[i][j] != 0
                            &&& self@.lists[i][j] % block_sizes()[i] == 0
                        } by {
                        if i == index {
                            assert(self@.lists[i][j] == before.lists[i][j]);
                        }
                    }
                    let last = before.lists[index as int].len() - 1;
                    assert(before.lists[index as int][last] != 0);
                    assert(self@.distinct()) by {
                        assert forall|i1: int, j1: int, i2: int, j2: int|
                            0 <= i1 < self@.lists.len() && 0 <= j1 < self@.lists[i1].len() && 0
                                <= i2 < self@.lists.len() && 0 <= j2 < self@.lists[i2].len()
                                && #[trigger] self@.lists[i1][j1] == #[trigger] self@.lists[i2][j2]
                            implies i1 == i2 && j1 == j2 by {
                            assert(self@.lists[i1][j1] == before.lists[i1][j1]);
                            assert(self@.lists[i2][j2] == before.lists[i2][j2]);
                        }
                    }
                    if self@.on_lists(head->0) {
                        let (i, j) = choose|i: int, j: int|
                            0 <= i < self@.lists.len() && 0 <= j < self@.lists[i].len()
                                && #[trigger] self@.lists[i][j] == head->0;
                        assert(self@.lists[i][j] == before.lists[i][j]);
                        assert(before.lists[index as int][last] == head->0);
                    }
                    self.live = Ghost(self.live@.insert(head->0));
                    if is_pow2(align) {
                        lemma_class_alignment_covers(head->0, index as int, align);
                    }
                }
                head
            },
            Source::Fallback { size: block, align: block_align } => {
                let top: usize = read_heap_top(&self.fallback_allocator);
                if block_align > usize::MAX - top || usize::MAX - top - block_align < SEARCH_MARGIN {
                    return None;
                }
                let got = fallback_allocate(&mut self.fallback_allocator, block, block_align);
                let r = self.accept_fallback(got);
                proof {
                    assert(self@.lists =~= before.lists);
                    if let Some(a) = r {
                        self.live = Ghost(self.live@.insert(a));
                    }
                    if let Some(a) = r {
                        if is_pow2(align) {
                            if let Some(i) = class_of(size, align) {
                                lemma_class_alignment_covers(a, i, align);
                            }
                        }
                    }
                }
                r
            },
        }
    }

    /// Frees the block at `addr`, which was allocated with this `size` and
    /// `align`. A block of a size class becomes the head of that class's free
    /// list and `true` is returned; any other block is left alone and `false`
    /// is returned: the caller hands it back to `fallback_allocator`.
    pub fn deallocate(&mut self, addr: usize, size: usize, align: usize) -> (recycled: bool)
        requires
            old(self)@.wf(),
            old(self)@.distinct(),
            old(self).live_blocks().count(addr) > 0,
            class_of(size, align) matches Some(i) ==> addr != 0 && addr % block_sizes()[i] == 0
                && !old(self)@.on_lists(addr),
        ensures
            final(self)@.wf(),
            final(self)@.distinct(),
            recycled == class_of(size, align) is Some,
            final(self)@ == old(self)@.deallocated(addr, size, align),
            final(self).has_memory() == old(self).has_memory(),
            final(self).live_blocks() == old(self).live_blocks().remove(addr),
            final(self).fallback_top() == old(self).fallback_top(),
    {
        let ghost before = self@;
        proof {
            self.live = Ghost(self.live@.remove(addr));
        }
        match list_index(size, align) {
            Some(index) => {
                let mut list = self.list_heads.remove(index);
                list.push(addr);
                self.list_heads.insert(index, list);
                proof {
                    assert(self@.lists =~= before.lists.update(
                        index as int,
                        before.lists[index as int].push(addr),
                    ));
                    assert forall|i: int, j: int|
                        0 <= i < NUM_CLASSES && 0 <= j < self@.lists[i].len() implies {
                            &&& #[trigger] self@.lists[i][j] != 0
                            &&& self@.lists[i][j] % block_sizes()[i] == 0
                        } by {
                        if i == index && j < before.lists[i].len() {
                            assert(self@.lists[i][j] == before.lists[i][j]);
                        }
                    }
                    let n = before.lists[index as int].len() as int;
                    assert(self@.distinct()) by {
                        assert forall|i1: int, j1: int, i2: int, j2: int|
                            0 <= i1 < self@.lists.len() && 0 <= j1 < self@.lists[i1].len() && 0
                                <= i2 < self@.lists.len() && 0 <= j2 < self@.lists[i2].len()
                                && #[trigger] self@.lists[i1][j1] == #[trigger] self@.lists[i2][j2]
                            implies i1 == i2 && j1 == j2 by {
                            if !(i1 == index && j1 == n) {
                                assert(self@.lists[i1][j1] == before.lists[i1][j1]);
                            }
                            if !(i2 == index && j2 == n) {
                                assert(self@.lists[i2][j2] == before.lists[i2][j2]);
                            }
                        }
                    }
                }
                true
            },
            None => false,
        }
    }
}

} // verus!
