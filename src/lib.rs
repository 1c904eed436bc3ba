//! Heap allocation for a freestanding kernel: alignment rounding, a bump
//! allocator, a fixed-size-block allocator over a first-fit fallback heap,
//! and the pages that back the kernel heap.
use vstd::prelude::*;

pub mod align;
pub mod bump;
pub mod fixed_size_block;
pub mod harness;
pub mod heap;

pub use align::align_up;
pub use bump::BumpAllocator;
pub use fixed_size_block::{list_index, FixedSizeBlockAllocator, Source};
pub use harness::{test_runner, trivial_assertion, QemuExitCode, Testable};
pub use heap::{heap_pages, HEAP_SIZE, HEAP_START};
